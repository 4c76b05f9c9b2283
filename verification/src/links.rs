//! The lines of a section of links: for each link the file and, behind a
//! blank, the place that the link goes to, with the home directory written
//! out.

use crate::config::{LinkModel, LinkSpec};
use crate::path::{join_path, joined};
use crate::table::model;
use crate::text::{chars_occur_at, chars_of, starts_with, texts};
use vstd::prelude::*;
use vstd::string::*;

verus! {

/// What stands for the home directory in a destination: `$HOME`.
pub open spec fn home_mark() -> Seq<char> {
    seq!['$', 'H', 'O', 'M', 'E']
}

/// The text with the home directory written out wherever `$HOME` stands in
/// it, from the left, no place used twice.
pub open spec fn expand_home(text: Seq<char>, home: Seq<char>) -> Seq<char>
    decreases text.len(),
{
    if text.len() == 0 {
        Seq::empty()
    } else if starts_with(text, home_mark()) {
        home + expand_home(text.skip(5), home)
    } else {
        seq![text[0]] + expand_home(text.drop_first(), home)
    }
}

/// The text with the home directory written out wherever `$HOME` stands in
/// it.
pub fn expand_home_in(text: &str, home: &str) -> (r: String)
    ensures
        r@ == expand_home(text@, home@),
{
    let chars = chars_of(text);
    let mark = chars_of("$HOME");
    proof {
        reveal_strlit("$HOME");
        assert(mark@ =~= home_mark());
    }
    let n = chars.len();
    let mut out = String::new();
    let mut start: usize = 0;
    let mut i: usize = 0;
    proof {
        assert(text@.skip(0) =~= text@);
        assert(out@ + text@.subrange(0, 0) + expand_home(text@, home@) =~= expand_home(
            text@,
            home@,
        ));
    }
    while i < n
        invariant
            start <= i <= n,
            n == chars.len(),
            chars@ == text@,
            mark@ == home_mark(),
            expand_home(text@, home@) == out@ + text@.subrange(start as int, i as int)
                + expand_home(text@.skip(i as int), home@),
        decreases n - i,
    {
        let ghost rest = text@.skip(i as int);
        let found = chars_occur_at(mark.as_slice(), chars.as_slice(), i);
        proof {
            if found {
                assert(rest.subrange(0, 5) =~= text@.subrange(i as int, i + 5));
            }
            if starts_with(rest, mark@) {
                assert(rest.subrange(0, 5) =~= text@.subrange(i as int, i + 5));
            }
            assert(found == starts_with(rest, mark@));
        }
        if found {
            out.append(text.substring_char(start, i));
            out.append(home);
            proof {
                assert(rest.skip(5) =~= text@.skip(i + 5));
                assert(text@.subrange(i + 5, i + 5) =~= Seq::<char>::empty());
                assert(expand_home(text@, home@) =~= out@ + text@.subrange(i + 5, i + 5)
                    + expand_home(text@.skip(i + 5), home@));
            }
            i += 5;
            start = i;
        } else {
            proof {
                assert(rest.drop_first() =~= text@.skip(i + 1));
                assert(text@.subrange(start as int, i + 1) =~= text@.subrange(
                    start as int,
                    i as int,
                ) + seq![text@[i as int]]);
                assert(expand_home(text@, home@) =~= out@ + text@.subrange(start as int, i + 1)
                    + expand_home(text@.skip(i + 1), home@));
            }
            i += 1;
        }
    }
    out.append(text.substring_char(start, n));
    proof {
        assert(text@.skip(n as int) =~= Seq::<char>::empty());
        assert(out@ =~= expand_home(text@, home@));
    }
    out
}

/// The line that links `source` to `dest`: the two with a blank between
/// them, the home directory written out in the destination.
pub open spec fn link_line(source: Seq<char>, dest: Seq<char>, home: Seq<char>) -> Seq<char> {
    source + " "@ + expand_home(dest, home)
}

/// The lines of a spec that is not recursive: each source is a file, seen
/// from `cwd`.
pub open spec fn flat_lines(
    items: Seq<(Seq<char>, Seq<char>)>,
    cwd: Seq<char>,
    home: Seq<char>,
) -> Seq<Seq<char>> {
    Seq::new(items.len(), |i: int| link_line(joined(cwd, items[i].0), items[i].1, home))
}

/// The lines for one directory of a recursive spec: each file found below
/// `src` is linked to the same place below `dst`. `files` are the paths of
/// the files as seen from the directory.
pub open spec fn tree_lines(
    src: Seq<char>,
    dst: Seq<char>,
    files: Seq<Seq<char>>,
    cwd: Seq<char>,
    home: Seq<char>,
) -> Seq<Seq<char>> {
    Seq::new(
        files.len(),
        |j: int| link_line(joined(joined(cwd, src), files[j]), joined(dst, files[j]), home),
    )
}

/// The files found below each directory, as texts.
pub open spec fn found(walked: Seq<Vec<String>>) -> Seq<Seq<Seq<char>>> {
    walked.map_values(|files: Vec<String>| texts(files@))
}

/// The files found below the directory of the entry at `index`; none where
/// nothing was handed in for it.
pub open spec fn files_below(walked: Seq<Seq<Seq<char>>>, index: int) -> Seq<Seq<char>> {
    if 0 <= index < walked.len() {
        walked[index]
    } else {
        Seq::empty()
    }
}

/// The lines of a recursive spec: those of its first directory, then those
/// of the next, and so on.
pub open spec fn deep_lines(
    items: Seq<(Seq<char>, Seq<char>)>,
    walked: Seq<Seq<Seq<char>>>,
    cwd: Seq<char>,
    home: Seq<char>,
) -> Seq<Seq<char>>
    decreases items.len(),
{
    if items.len() == 0 {
        Seq::empty()
    } else {
        deep_lines(items.drop_last(), walked, cwd, home) + tree_lines(
            items.last().0,
            items.last().1,
            files_below(walked, items.len() - 1),
            cwd,
            home,
        )
    }
}

/// The lines of a link spec. `walked` holds, for each entry of a recursive
/// spec in the order of the entries, the files found below its directory.
pub open spec fn link_lines(
    link: LinkModel,
    walked: Seq<Seq<Seq<char>>>,
    cwd: Seq<char>,
    home: Seq<char>,
) -> Seq<Seq<char>> {
    if link.recursive {
        deep_lines(link.items, walked, cwd, home)
    } else {
        flat_lines(link.items, cwd, home)
    }
}

fn line_for(source: &str, dest: &str, home: &str) -> (r: String)
    ensures
        r@ == link_line(source@, dest@, home@),
{
    let mut line = source.to_string();
    line.append(" ");
    let place = expand_home_in(dest, home);
    line.append(place.as_str());
    line
}

/// The lines of a section of links. Of a spec that is not recursive each
/// entry gives one line. Of a recursive spec each entry names a directory,
/// and `walked` tells, entry by entry, which files were found below it, by
/// their paths as seen from the directory: each file gives one line.
pub fn linkspec_to_vec(spec: &LinkSpec, cwd: &str, home: &str, walked: &[Vec<String>]) -> (r: Vec<
    String,
>)
    ensures
        texts(r@) == link_lines(spec@, found(walked@), cwd@, home@),
{
    let entries = spec.items.as_slice();
    let ghost items = spec@.items;
    let ghost files = found(walked@);
    let mut lines: Vec<String> = Vec::new();
    let mut i: usize = 0;
    if !spec.recursive {
        while i < entries.len()
            invariant
                i <= entries.len(),
                model(entries@) == items,
                lines.len() == i,
                forall|k: int|
                    0 <= k < i ==> (#[trigger] lines[k])@ == flat_lines(items, cwd@, home@)[k],
            decreases entries.len() - i,
        {
            let source = join_path(cwd, entries[i].0.as_str());
            assert(items[i as int] == (entries[i as int].0@, entries[i as int].1@));
            lines.push(line_for(source.as_str(), entries[i].1.as_str(), home));
            i += 1;
        }
        assert(texts(lines@) =~= flat_lines(items, cwd@, home@));
        return lines;
    }
    proof {
        assert(items.take(0) =~= Seq::<(Seq<char>, Seq<char>)>::empty());
        assert(texts(lines@) =~= deep_lines(items.take(0), files, cwd@, home@));
    }
    while i < entries.len()
        invariant
            i <= entries.len(),
            model(entries@) == items,
            files == found(walked@),
            texts(lines@) == deep_lines(items.take(i as int), files, cwd@, home@),
        decreases entries.len() - i,
    {
        let ghost before = texts(lines@);
        let ghost src = items[i as int].0;
        let ghost dst = items[i as int].1;
        let ghost here = files_below(files, i as int);
        assert(items[i as int] == (entries[i as int].0@, entries[i as int].1@));
        proof {
            assert(items.take(i + 1).drop_last() =~= items.take(i as int));
            assert(items.take(i + 1).last() == items[i as int]);
        }
        if i < walked.len() {
            let dir = join_path(cwd, entries[i].0.as_str());
            let below = &walked[i];
            assert(here == texts(below@));
            let mut j: usize = 0;
            while j < below.len()
                invariant
                    j <= below.len(),
                    here == texts(below@),
                    dir@ == joined(cwd@, src),
                    dst == entries[i as int].1@,
                    i < entries.len(),
                    texts(lines@) == before + tree_lines(src, dst, here, cwd@, home@).take(
                        j as int,
                    ),
                decreases below.len() - j,
            {
                let source = join_path(dir.as_str(), below[j].as_str());
                let dest = join_path(entries[i].1.as_str(), below[j].as_str());
                let line = line_for(source.as_str(), dest.as_str(), home);
                let ghost so_far = lines@;
                lines.push(line);
                proof {
                    let all = tree_lines(src, dst, here, cwd@, home@);
                    assert(here[j as int] == below[j as int]@);
                    assert(all[j as int] == line@);
                    assert(all.take(j + 1) =~= all.take(j as int).push(all[j as int]));
                    assert(texts(lines@) =~= texts(so_far).push(line@));
                }
                j += 1;
            }
            proof {
                let all = tree_lines(src, dst, here, cwd@, home@);
                assert(all.take(j as int) =~= all);
            }
        } else {
            assert(tree_lines(src, dst, here, cwd@, home@) =~= Seq::<Seq<char>>::empty());
            assert(before + tree_lines(src, dst, here, cwd@, home@) =~= before);
        }
        i += 1;
    }
    proof {
        assert(items.take(i as int) =~= items);
    }
    lines
}

/// The home directory that link destinations are written out with: the one
/// named on the command line, or else the one of the environment, or else
/// the directory the run is in.
pub open spec fn home_text(named: Seq<char>, env_home: Option<Seq<char>>) -> Seq<char> {
    if named.len() > 0 {
        named
    } else {
        match env_home {
            Some(h) => h,
            None => "."@,
        }
    }
}

/// The home directory that link destinations are written out with.
pub fn resolve_home(named: &str, env_home: Option<String>) -> (r: String)
    ensures
        r@ == home_text(
            named@,
            match env_home {
                Some(h) => Some(h@),
                None => None,
            },
        ),
{
    if !named.is_empty() {
        named.to_string()
    } else {
        match env_home {
            Some(h) => h,
            None => ".".to_string(),
        }
    }
}

} // verus!
