//! Paths as the shell will see them: joining a path to a base, and the
//! normal form that leaves out empty parts and `.`.

use crate::text::{chars_of, join, lemma_join_push};
use vstd::prelude::*;
use vstd::string::*;

verus! {

/// The separator as a text.
pub open spec fn slash() -> Seq<char> {
    seq!['/']
}

/// The pieces of a path between its separators. A path without a separator
/// is one piece; two separators in a row have an empty piece between them.
pub open spec fn pieces(path: Seq<char>) -> Seq<Seq<char>>
    decreases path.len(),
{
    if path.len() == 0 {
        seq![Seq::empty()]
    } else {
        let front = pieces(path.drop_last());
        if path.last() == '/' {
            front.push(Seq::empty())
        } else {
            front.drop_last().push(front.last().push(path.last()))
        }
    }
}

/// A piece that names something: not empty, and not `.`, which stands for
/// the directory it is met in.
pub open spec fn is_name(piece: Seq<char>) -> bool {
    piece.len() > 0 && piece != seq!['.']
}

/// The pieces that are names, in order.
pub open spec fn names(parts: Seq<Seq<char>>) -> Seq<Seq<char>>
    decreases parts.len(),
{
    if parts.len() == 0 {
        Seq::empty()
    } else if is_name(parts.last()) {
        names(parts.drop_last()).push(parts.last())
    } else {
        names(parts.drop_last())
    }
}

/// A path that starts at the root.
pub open spec fn is_rooted(path: Seq<char>) -> bool {
    path.len() > 0 && path[0] == '/'
}

/// The path with its names alone, one separator between each two, and one
/// in front if the path starts at the root.
pub open spec fn normalized(path: Seq<char>) -> Seq<char> {
    (if is_rooted(path) {
        slash()
    } else {
        Seq::empty()
    }) + join(names(pieces(path)), slash())
}

/// `rel` seen from `base`: `rel` itself where it starts at the root, else
/// `base` and `rel` with a separator between them unless `base` brings one
/// or is empty.
pub open spec fn joined(base: Seq<char>, rel: Seq<char>) -> Seq<char> {
    if is_rooted(rel) {
        rel
    } else if base.len() == 0 || base.last() == '/' {
        base + rel
    } else {
        base + slash() + rel
    }
}

/// The path of a file of a repository, in normal form.
pub open spec fn repo_file(repo_path: Seq<char>, src: Seq<char>) -> Seq<char> {
    normalized(joined(repo_path, src))
}

/// A path always has a piece.
pub proof fn lemma_pieces_nonempty(path: Seq<char>)
    ensures
        pieces(path).len() > 0,
    decreases path.len(),
{
    if path.len() > 0 {
        lemma_pieces_nonempty(path.drop_last());
    }
}

/// One character more either ends the last piece or grows it.
pub proof fn lemma_pieces_step(path: Seq<char>, n: int)
    requires
        0 <= n < path.len(),
    ensures
        pieces(path.take(n)).len() > 0,
        path[n] == '/' ==> pieces(path.take(n + 1)) == pieces(path.take(n)).push(Seq::empty()),
        path[n] != '/' ==> pieces(path.take(n + 1)) == pieces(path.take(n)).drop_last().push(
            pieces(path.take(n)).last().push(path[n]),
        ),
{
    lemma_pieces_nonempty(path.take(n));
    assert(path.take(n + 1).drop_last() =~= path.take(n));
}

/// `rel` seen from `base`.
pub fn join_path(base: &str, rel: &str) -> (r: String)
    ensures
        r@ == joined(base@, rel@),
{
    let rel_chars = chars_of(rel);
    if rel_chars.len() > 0 && rel_chars[0] == '/' {
        return rel.to_string();
    }
    let base_chars = chars_of(base);
    let mut out = base.to_string();
    if base_chars.len() > 0 && base_chars[base_chars.len() - 1] != '/' {
        out.append("/");
        proof {
            reveal_strlit("/");
            assert("/"@ =~= slash());
        }
    }
    out.append(rel);
    out
}

/// Writes the piece of `path` from `start` to `end` to `out` if it is a
/// name, behind a separator if a name was written before.
fn flush(
    out: &mut String,
    path: &str,
    chars: &Vec<char>,
    start: usize,
    end: usize,
    any: bool,
) -> (r: bool)
    requires
        chars@ == path@,
        start <= end <= chars.len(),
    ensures
        final(out)@ == if is_name(path@.subrange(start as int, end as int)) {
            if any {
                old(out)@ + slash() + path@.subrange(start as int, end as int)
            } else {
                old(out)@ + path@.subrange(start as int, end as int)
            }
        } else {
            old(out)@
        },
        r == (any || is_name(path@.subrange(start as int, end as int))),
{
    let ghost piece = path@.subrange(start as int, end as int);
    let len = end - start;
    if len == 0 {
        return any;
    }
    if len == 1 && chars[start] == '.' {
        assert(piece =~= seq!['.']);
        return any;
    }
    assert(piece != seq!['.']) by {
        if len == 1 {
            assert(piece[0] == chars[start as int]);
        } else {
            assert(piece.len() != seq!['.'].len());
        }
    }
    if any {
        out.append("/");
        proof {
            reveal_strlit("/");
            assert("/"@ =~= slash());
        }
    }
    out.append(path.substring_char(start, end));
    true
}

/// The path in normal form.
pub fn normalize(path: &str) -> (r: String)
    ensures
        r@ == normalized(path@),
{
    let chars = chars_of(path);
    let n = chars.len();
    let mut out = String::new();
    if n > 0 && chars[0] == '/' {
        out.append("/");
        proof {
            reveal_strlit("/");
            assert("/"@ =~= slash());
        }
    }
    let ghost root = out@;
    let mut any = false;
    let mut start: usize = 0;
    let mut i: usize = 0;
    proof {
        assert(path@.take(0) =~= Seq::<char>::empty());
        assert(pieces(path@.take(0)).drop_last() =~= Seq::<Seq<char>>::empty());
        assert(path@.subrange(0, 0) =~= Seq::<char>::empty());
    }
    while i < n
        invariant
            start <= i <= n,
            n == chars.len(),
            chars@ == path@,
            pieces(path@.take(i as int)).len() > 0,
            pieces(path@.take(i as int)).last() == path@.subrange(start as int, i as int),
            out@ == root + join(names(pieces(path@.take(i as int)).drop_last()), slash()),
            any == (names(pieces(path@.take(i as int)).drop_last()).len() > 0),
        decreases n - i,
    {
        proof {
            lemma_pieces_step(path@, i as int);
        }
        let ghost before = pieces(path@.take(i as int));
        if chars[i] == '/' {
            let ghost so_far = out@;
            any = flush(&mut out, path, &chars, start, i, any);
            start = i + 1;
            proof {
                let after = pieces(path@.take(i + 1));
                assert(after.drop_last() =~= before);
                assert(path@.subrange(i + 1, i + 1) =~= Seq::<char>::empty());
                let done = names(before.drop_last());
                lemma_join_push(done, before.last(), slash());
                if is_name(before.last()) {
                    assert(names(before) == done.push(before.last()));
                    if done.len() > 0 {
                        assert(out@ =~= root + (join(done, slash()) + slash() + before.last()));
                    }
                } else {
                    assert(names(before) == done);
                }
            }
        } else {
            proof {
                let after = pieces(path@.take(i + 1));
                assert(after.drop_last() =~= before.drop_last());
                assert(path@.subrange(start as int, i + 1) =~= path@.subrange(
                    start as int,
                    i as int,
                ).push(path@[i as int]));
            }
        }
        i += 1;
    }
    proof {
        assert(path@.take(n as int) =~= path@);
    }
    let ghost so_far = out@;
    let _ = flush(&mut out, path, &chars, start, n, any);
    proof {
        let all = pieces(path@);
        let done = names(all.drop_last());
        lemma_join_push(done, all.last(), slash());
        if is_name(all.last()) {
            assert(names(all) == done.push(all.last()));
            if done.len() > 0 {
                assert(out@ =~= root + (join(done, slash()) + slash() + all.last()));
            }
        } else {
            assert(names(all) == done);
        }
    }
    out
}

/// The path of a file of a repository, in normal form.
pub fn repo_file_path(repo_path: &str, src: &str) -> (r: String)
    ensures
        r@ == repo_file(repo_path@, src@),
{
    let whole = join_path(repo_path, src);
    normalize(whole.as_str())
}

} // verus!
