//! Adding the binaries directory to the user's search path.

use vstd::prelude::*;

use crate::paths::{chars_of, string_from_chars};

verus! {

/// Whether `needle` occurs in `hay`.
pub open spec fn occurs_in(needle: Seq<char>, hay: Seq<char>) -> bool {
    exists|i: int| 0 <= i <= hay.len() - needle.len() && #[trigger] hay.subrange(i, i + needle.len()) == needle
}

/// Whether `needle` occurs in `hay`.
pub fn text_contains(hay: &str, needle: &str) -> (r: bool)
    ensures
        r == occurs_in(needle@, hay@),
{
    let h = chars_of(hay);
    let n = chars_of(needle);
    if n.len() > h.len() {
        return false;
    }
    let hl = h.len();
    let last = hl - n.len();
    let mut i: usize = 0;
    while i <= last
        invariant
            h@ == hay@,
            n@ == needle@,
            last == h@.len() - n@.len(),
            n@.len() <= h@.len(),
            hl == h@.len(),
            forall|k: int| 0 <= k < i ==> #[trigger] h@.subrange(k, k + n@.len()) != n@,
        decreases last + 1 - i,
    {
        let mut j: usize = 0;
        let mut same = true;
        while j < n.len()
            invariant
                i <= last,
                last == h@.len() - n@.len(),
                n@.len() <= h@.len(),
                hl == h@.len(),
                j <= n@.len(),
                same ==> forall|m: int| 0 <= m < j ==> h@[i + m] == n@[m],
                !same ==> h@.subrange(i as int, i + n@.len()) != n@,
            decreases n@.len() - j,
        {
            if same && h[i + j] != n[j] {
                same = false;
                proof {
                    assert(h@.subrange(i as int, i + n@.len())[j as int] == h@[i + j]);
                }
            }
            j = j + 1;
        }
        if same {
            proof {
                assert(h@.subrange(i as int, i + n@.len()) =~= n@);
            }
            return true;
        }
        if i == last {
            return false;
        }
        i = i + 1;
    }
    false
}

/// The last component of a path.
pub open spec fn file_name_of(path: Seq<char>) -> Seq<char>
    decreases path.len(),
{
    if path.len() == 0 {
        seq![]
    } else if path.last() == '/' {
        seq![]
    } else {
        file_name_of(path.drop_last()).push(path.last())
    }
}

/// The shell configuration file, under the home directory, for a shell program.
pub open spec fn shell_config_of(shell: Seq<char>) -> Seq<char> {
    if shell == "bash"@ {
        ".bashrc"@
    } else if shell == "zsh"@ {
        ".zshrc"@
    } else if shell == "fish"@ {
        ".config/fish/config.fish"@
    } else {
        ".profile"@
    }
}

/// The configuration file, under the home directory, of the shell at `shell_path`.
pub fn shell_config_file(shell_path: &str) -> (r: String)
    ensures
        r@ == shell_config_of(file_name_of(shell_path@)),
{
    let chars = chars_of(shell_path);
    let mut name: Vec<char> = Vec::new();
    let mut i: usize = 0;
    proof {
        assert(chars@.subrange(0, 0) =~= Seq::<char>::empty());
    }
    while i < chars.len()
        invariant
            i <= chars@.len(),
            name@ == file_name_of(chars@.subrange(0, i as int)),
        decreases chars@.len() - i,
    {
        proof {
            assert(chars@.subrange(0, i + 1).drop_last() =~= chars@.subrange(0, i as int));
        }
        if chars[i] == '/' {
            name = Vec::new();
        } else {
            name.push(chars[i]);
        }
        i = i + 1;
    }
    proof {
        assert(chars@.subrange(0, chars@.len() as int) =~= shell_path@);
    }
    let shell = string_from_chars(&name);
    let s = shell.as_str();
    if s.to_owned() == "bash".to_owned() {
        ".bashrc".to_owned()
    } else if s.to_owned() == "zsh".to_owned() {
        ".zshrc".to_owned()
    } else if s.to_owned() == "fish".to_owned() {
        ".config/fish/config.fish".to_owned()
    } else {
        ".profile".to_owned()
    }
}

/// The line that puts `bin_path` first on the search path of a POSIX shell.
pub open spec fn export_line(bin_path: Seq<char>) -> Seq<char> {
    "export PATH=\""@ + bin_path + ":$PATH\"\n"@
}

/// A shell configuration with `bin_path` on the search path: unchanged when it
/// mentions the path already, else with the export line appended after a newline.
pub fn shell_config_with_path(content: &str, bin_path: &str) -> (r: Option<String>)
    ensures
        occurs_in(bin_path@, content@) <==> r is None,
        r matches Some(s) ==> s@ == content@ + "\n"@ + export_line(bin_path@),
{
    if text_contains(content, bin_path) {
        return None;
    }
    let mut s = content.to_owned();
    s.append("\n");
    s.append("export PATH=\"");
    s.append(bin_path);
    s.append(":$PATH\"\n");
    Some(s)
}

/// A user `Path` value with `bin_path` first: unchanged when it mentions the path
/// already, else `<bin_path>;<current>`.
pub fn user_path_with(current: &str, bin_path: &str) -> (r: Option<String>)
    ensures
        occurs_in(bin_path@, current@) <==> r is None,
        r matches Some(s) ==> s@ == bin_path@ + ";"@ + current@,
{
    if text_contains(current, bin_path) {
        return None;
    }
    let mut s = bin_path.to_owned();
    s.append(";");
    s.append(current);
    Some(s)
}

} // verus!
