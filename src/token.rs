//! Where the catalog's API token is kept and how it is read from its file.
//! Reading the file and the environment is left to the caller; these
//! functions take what was read.

use vstd::prelude::*;
use vstd::string::*;

verus! {

#[derive(Debug, Clone)]
pub enum Error {
    FileUnreadable(String),
    FileEmpty(String),
}

/// The configuration directory: `$XDG_CONFIG_HOME` where it is set, else
/// `$HOME/.config` (with an empty home where that is unset too).
pub fn config_directory(xdg_config_home: Option<String>, home: Option<String>) -> (r: String)
    ensures
        match xdg_config_home {
            Some(x) => r@ == x@,
            None => match home {
                Some(h) => r@ == h@ + "/.config"@,
                None => r@ == "/.config"@,
            },
        },
{
    match xdg_config_home {
        Some(x) => x,
        None => match home {
            Some(h) => h.concat("/.config"),
            None => String::from_str("/.config"),
        },
    }
}

/// The path of the token file below a configuration directory.
pub fn token_path(config_dir: &str) -> (r: String)
    ensures
        r@ == config_dir@ + "/lyrical/token"@,
{
    config_dir.to_string().concat("/lyrical/token")
}

/// The first line of a text, as `str::lines` yields it: the characters
/// before the first `\n`, without a `\r` just before it. A text with no
/// characters has no line.
pub open spec fn first_line_of(s: Seq<char>) -> Option<Seq<char>> {
    if s.len() == 0 {
        None
    } else if exists|i: int| 0 <= i < s.len() && s[i] == '\n' {
        let i = choose|i: int| 0 <= i < s.len() && s[i] == '\n' && forall|j: int| 0 <= j < i ==> s[j] != '\n';
        let line = s.take(i);
        if line.len() > 0 && line.last() == '\r' {
            Some(line.drop_last())
        } else {
            Some(line)
        }
    } else {
        Some(s)
    }
}

/// The token held by the contents of the token file at `path`: its first line.
pub fn token_from_contents(contents: &str, path: &str) -> (r: Result<String, Error>)
    ensures
        match first_line_of(contents@) {
            Some(line) => r matches Ok(t) && t@ == line,
            None => r matches Err(Error::FileEmpty(p)) && p@ == path@,
        },
{
    let n = contents.unicode_len();
    if n == 0 {
        return Err(Error::FileEmpty(path.to_string()));
    }
    let mut i: usize = 0;
    while i < n
        invariant
            i <= n,
            n == contents@.len(),
            forall|j: int| 0 <= j < i ==> contents@[j] != '\n',
        decreases n - i,
    {
        if contents.get_char(i) == '\n' {
            let ghost s = contents@;
            assert forall|k: int| 0 <= k < s.len() && s[k] == '\n' && (forall|j: int| 0 <= j < k ==> s[j] != '\n') implies k == i by {
                if k < i {
                    assert(s[k] != '\n');
                } else if k > i {
                    assert(s[i as int] != '\n');
                }
            }
            if i > 0 && contents.get_char(i - 1) == '\r' {
                let line = contents.substring_char(0, i - 1);
                assert(line@ =~= s.take(i as int).drop_last());
                return Ok(line.to_string());
            }
            let line = contents.substring_char(0, i);
            assert(line@ =~= s.take(i as int));
            return Ok(line.to_string());
        }
        i += 1;
    }
    let all = contents.substring_char(0, n);
    assert(all@ =~= contents@);
    Ok(all.to_string())
}

} // verus!
