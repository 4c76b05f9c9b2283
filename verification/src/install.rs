//! Which files of shell functions are put where the scripts expect them,
//! and what is said of it.

use crate::text::{chars_end_with, chars_of, ends_with, join, join_strings, texts};
use vstd::prelude::*;
use vstd::string::*;

verus! {

/// A file name with the extension `sh`: it ends in `.sh`, and something
/// stands before that.
pub open spec fn has_shell_extension(name: Seq<char>) -> bool {
    name.len() > 3 && ends_with(name, seq!['.', 's', 'h'])
}

/// Whether a file name has the extension `sh`.
pub fn is_shell_file(name: &str) -> (r: bool)
    ensures
        r == has_shell_extension(name@),
{
    let chars = chars_of(name);
    let ending = chars_of(".sh");
    proof {
        reveal_strlit(".sh");
        assert(ending@ =~= seq!['.', 's', 'h']);
    }
    chars.len() > 3 && chars_end_with(chars.as_slice(), ending.as_slice())
}

/// The directory below the home directory that holds the files of shell
/// functions.
pub open spec fn functions_dir_text(home: Seq<char>) -> Seq<char> {
    home + "/.local/share/manifest"@
}

/// The directory below the home directory that holds the files of shell
/// functions.
pub fn functions_dir(home: &str) -> (r: String)
    ensures
        r@ == functions_dir_text(home@),
{
    let mut dir = home.to_string();
    dir.append("/.local/share/manifest");
    dir
}

/// The path of the file `name` in the directory `dir`.
pub fn file_in(dir: &str, name: &str) -> (r: String)
    ensures
        r@ == dir@ + "/"@ + name@,
{
    let mut path = dir.to_string();
    path.append("/");
    path.append(name);
    path
}

/// What is said of the files that were put in place: their names behind a
/// fixed label, with a comma and a blank between each two.
pub open spec fn install_message_text(installed: Seq<Seq<char>>) -> Seq<char> {
    "Installed manifest shell functions: "@ + join(installed, ", "@)
}

/// What is said of the files that were put in place; nothing where none
/// was.
pub fn install_message(installed: &[String]) -> (r: Option<String>)
    ensures
        r is Some <==> (installed@.len() > 0),
        r matches Some(message) ==> message@ == install_message_text(texts(installed@)),
{
    if installed.len() == 0 {
        return None;
    }
    let mut message = "Installed manifest shell functions: ".to_string();
    let names = join_strings(installed, ", ");
    message.append(names.as_str());
    Some(message)
}

} // verus!
