//! Inferring a run command from a solution file's path.
//!
//! A `.py` file is run by handing it to `python3`; any other extension needs
//! an explicit command.

use vstd::prelude::*;
use vstd::string::StrSliceExecFns;

verus! {

/// Where the file name starts: right after the last `/`, or at the start of
/// the path when it has no `/`.
pub open spec fn name_start(path: Seq<char>) -> int
    decreases path.len(),
{
    if path.len() == 0 {
        0
    } else if path.last() == '/' {
        path.len() as int
    } else {
        name_start(path.drop_last())
    }
}

/// What `name_start` returns, spelled out.
pub proof fn lemma_name_start(path: Seq<char>)
    ensures
        0 <= name_start(path) <= path.len(),
        forall|j: int| name_start(path) <= j < path.len() ==> path[j] != '/',
        name_start(path) > 0 ==> path[name_start(path) - 1] == '/',
    decreases path.len(),
{
    if path.len() == 0 {
    } else if path.last() == '/' {
    } else {
        lemma_name_start(path.drop_last());
        assert(forall|j: int| 0 <= j < path.len() - 1 ==> path.drop_last()[j] == path[j]);
    }
}

/// The index of the last `.` that comes strictly after position `lo`, if any.
pub open spec fn last_dot_after(path: Seq<char>, lo: int) -> Option<int>
    decreases path.len(),
{
    if path.len() == 0 {
        None
    } else if path.len() - 1 <= lo {
        None
    } else if path.last() == '.' {
        Some(path.len() - 1)
    } else {
        last_dot_after(path.drop_last(), lo)
    }
}

/// What `last_dot_after` returns, spelled out.
pub proof fn lemma_last_dot_after(path: Seq<char>, lo: int)
    requires
        lo >= 0,
    ensures
        match last_dot_after(path, lo) {
            Some(d) => lo < d < path.len() && path[d] == '.' && forall|j: int|
                d < j < path.len() ==> path[j] != '.',
            None => forall|j: int| lo < j < path.len() ==> path[j] != '.',
        },
    decreases path.len(),
{
    if path.len() == 0 {
    } else if path.len() - 1 <= lo {
    } else if path.last() == '.' {
    } else {
        lemma_last_dot_after(path.drop_last(), lo);
        assert(forall|j: int| 0 <= j < path.len() - 1 ==> path.drop_last()[j] == path[j]);
    }
}

/// The path's extension: what follows the last `.` of its file name,
/// provided that dot is not the name's first character.
pub open spec fn extension_of(path: Seq<char>) -> Option<Seq<char>> {
    match last_dot_after(path, name_start(path)) {
        Some(d) => Some(path.skip(d + 1)),
        None => None,
    }
}

/// Where the file name starts in `path`.
fn find_name_start(path: &str) -> (r: usize)
    ensures
        r == name_start(path@),
{
    let n = path.unicode_len();
    let mut j: usize = n;
    proof {
        assert(path@.take(n as int) =~= path@);
    }
    while j > 0
        invariant
            j <= n == path@.len(),
            name_start(path@) == name_start(path@.take(j as int)),
        decreases j,
    {
        proof {
            assert(path@.take(j as int).last() == path@[j - 1]);
            assert(path@.take(j as int).drop_last() =~= path@.take(j - 1));
        }
        if path.get_char(j - 1) == '/' {
            return j;
        }
        j = j - 1;
    }
    0
}

/// The index of the last `.` strictly after `lo`, if any.
fn find_last_dot(path: &str, lo: usize) -> (r: Option<usize>)
    ensures
        match r {
            Some(d) => Some(d as int) == last_dot_after(path@, lo as int),
            None => last_dot_after(path@, lo as int) is None,
        },
{
    let n = path.unicode_len();
    let mut j: usize = n;
    proof {
        assert(path@.take(n as int) =~= path@);
    }
    while j > 0 && j - 1 > lo
        invariant
            j <= n == path@.len(),
            last_dot_after(path@, lo as int) == last_dot_after(path@.take(j as int), lo as int),
        decreases j,
    {
        proof {
            assert(path@.take(j as int).last() == path@[j - 1]);
            assert(path@.take(j as int).drop_last() =~= path@.take(j - 1));
        }
        if path.get_char(j - 1) == '.' {
            return Some(j - 1);
        }
        j = j - 1;
    }
    None
}

/// What `shlex::join` makes of a word list.
pub uninterp spec fn shlex_join_of(words: Seq<Seq<char>>) -> Seq<char>;

/// A character the shell joiner passes through without quoting: the letters,
/// the digits, and `+ - . / : @ ] _`.
pub open spec fn plain_char(c: char) -> bool {
    ||| c == '+'
    ||| c == '-'
    ||| c == '.'
    ||| c == '/'
    ||| c == ':'
    ||| c == '@'
    ||| c == ']'
    ||| c == '_'
    ||| ('0' as u32) <= (c as u32) <= ('9' as u32)
    ||| ('A' as u32) <= (c as u32) <= ('Z' as u32)
    ||| ('a' as u32) <= (c as u32) <= ('z' as u32)
}

/// A word the shell joiner passes through as it is: non-empty and made of
/// plain characters only.
pub open spec fn plain_word(w: Seq<char>) -> bool {
    w.len() > 0 && forall|i: int| 0 <= i < w.len() ==> plain_char(w[i])
}

/// Relies on `shlex::join`: the words joined by single spaces, each quoted
/// only when needed — a non-empty word of unquoted-safe characters passes
/// through as it is. The result depends on the words alone.
#[allow(deprecated)]
#[verifier::external_body]
fn shlex_join_two(first: &str, second: &str) -> (r: String)
    ensures
        r@ == shlex_join_of(seq![first@, second@]),
        plain_word(first@) && plain_word(second@) ==> r@ == first@ + " "@ + second@,
{
    shlex::join([first, second])
}

/// Guess the command that runs the solution at `file_path`: a path whose
/// extension is `py` runs under `python3` with the path as sole argument
/// (joined shell-style); any other path yields nothing.
pub fn guess_command(file_path: &str) -> (r: Option<String>)
    ensures
        r is Some <==> extension_of(file_path@) == Some("py"@),
        r matches Some(c) ==> (c@ == shlex_join_of(seq!["python3"@, file_path@]) && (plain_word(
            file_path@,
        ) ==> c@ == "python3 "@ + file_path@)),
{
    let ns = find_name_start(file_path);
    let d = match find_last_dot(file_path, ns) {
        Some(d) => d,
        None => {
            return None;
        },
    };
    proof {
        lemma_last_dot_after(file_path@, ns as int);
        lemma_name_start(file_path@);
    }
    let n = file_path.unicode_len();
    let ext = file_path.substring_char(d + 1, n);
    proof {
        assert(ext@ =~= file_path@.skip(d + 1));
        reveal_strlit("py");
    }
    if ext.unicode_len() == 2 && ext.get_char(0) == 'p' && ext.get_char(1) == 'y' {
        proof {
            assert(ext@ =~= "py"@);
        }
        let joined = shlex_join_two("python3", file_path);
        proof {
            reveal_strlit("python3");
            reveal_strlit("python3 ");
            reveal_strlit(" ");
            if plain_word(file_path@) {
                assert(plain_char("python3"@[0]));
                assert(plain_char("python3"@[1]));
                assert(plain_char("python3"@[2]));
                assert(plain_char("python3"@[3]));
                assert(plain_char("python3"@[4]));
                assert(plain_char("python3"@[5]));
                assert(plain_char("python3"@[6]));
                assert(plain_word("python3"@));
                assert("python3 "@ + file_path@ =~= "python3"@ + " "@ + file_path@);
            }
        }
        Some(joined)
    } else {
        proof {
            if ext@.len() != 2 {
                assert(ext@ != "py"@);
            } else if ext@[0] != 'p' {
                assert(ext@ != "py"@);
            } else {
                assert(ext@[1] != 'y');
                assert(ext@ != "py"@);
            }
        }
        None
    }
}

} // verus!
