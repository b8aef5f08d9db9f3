//! Resumable multi-file transfer: safe leaf names, resume checkpoints and
//! the durable state that lets an interrupted batch continue.

pub mod batch;
pub mod send_job;
pub mod receive;

use vstd::prelude::*;
use vstd::string::StringSliceAdditionalSpecFns;

use crate::protocol::transfer::MAX_FILE_NAME_LEN;

verus! {

/// A name is not a safe cross-platform leaf name.
#[derive(Clone, Copy, Debug, PartialEq, Eq, Structural)]
pub struct FileNameError;

/// Control characters and the characters Windows refuses in file names.
pub open spec fn forbidden_char(c: char) -> bool {
    (c as u32) < 0x20 || (0x7f <= (c as u32) && (c as u32) <= 0x9f) || c == '<' || c == '>' || c
        == ':' || c == '"' || c == '/' || c == '\\' || c == '|' || c == '?' || c == '*'
}

/// Index of the first `.`, or the length when there is none.
pub open spec fn first_dot(s: Seq<char>) -> int
    decreases s.len(),
{
    if s.len() == 0 {
        0
    } else {
        let p = first_dot(s.drop_last());
        if p < s.len() - 1 {
            p
        } else if s.last() == '.' {
            s.len() - 1
        } else {
            s.len() as int
        }
    }
}

proof fn lemma_first_dot_bounds(s: Seq<char>)
    ensures
        0 <= first_dot(s) <= s.len(),
    decreases s.len(),
{
    if s.len() > 0 {
        lemma_first_dot_bounds(s.drop_last());
    }
}

pub open spec fn ascii_upper(c: char) -> char {
    if 'a' <= c && c <= 'z' {
        ((c as u32) - 32) as char
    } else {
        c
    }
}

/// The part of a name before its first `.`, in ASCII upper case.
pub open spec fn upper_stem(s: Seq<char>) -> Seq<char> {
    Seq::new(first_dot(s) as nat, |i: int| ascii_upper(s[i]))
}

/// DOS device names, which Windows reserves in every directory.
pub open spec fn reserved_stem(u: Seq<char>) -> bool {
    ||| u == seq!['C', 'O', 'N']
    ||| u == seq!['P', 'R', 'N']
    ||| u == seq!['A', 'U', 'X']
    ||| u == seq!['N', 'U', 'L']
    ||| (u.len() == 4 && ((u[0] == 'C' && u[1] == 'O' && u[2] == 'M') || (u[0] == 'L' && u[1]
        == 'P' && u[2] == 'T')) && '1' <= u[3] && u[3] <= '9')
}

/// A safe cross-platform leaf name: 1 to 255 bytes, not `.` or `..`, not
/// ending in a space or dot, free of control and path characters, and not
/// a reserved device name with or without an extension.
pub open spec fn safe_file_name(s: Seq<char>, byte_len: nat) -> bool {
    &&& byte_len != 0
    &&& byte_len <= MAX_FILE_NAME_LEN
    &&& s != seq!['.']
    &&& s != seq!['.', '.']
    &&& s.len() > 0 ==> (s.last() != ' ' && s.last() != '.')
    &&& forall|i: int| 0 <= i < s.len() ==> !forbidden_char(#[trigger] s[i])
    &&& !reserved_stem(upper_stem(s))
}

fn is_forbidden(c: char) -> (r: bool)
    ensures
        r == forbidden_char(c),
{
    let u = c as u32;
    u < 0x20 || (u >= 0x7f && u <= 0x9f) || c == '<' || c == '>' || c == ':' || c == '"' || c
        == '/' || c == '\\' || c == '|' || c == '?' || c == '*'
}

fn upper(c: char) -> (r: char)
    ensures
        r == ascii_upper(c),
{
    if c >= 'a' && c <= 'z' {
        let u = ((c as u32) - 32) as u8;
        u as char
    } else {
        c
    }
}

/// Scans the characters once: whether none is forbidden, the upper-cased
/// stem, and the last character.
fn scan(name: &str) -> (r: (bool, Vec<char>, Option<char>))
    ensures
        r.0 == (forall|i: int| 0 <= i < name@.len() ==> !forbidden_char(#[trigger] name@[i])),
        r.1@ == upper_stem(name@),
        r.2 == (if name@.len() == 0 {
            None
        } else {
            Some(name@.last())
        }),
{
    broadcast use vstd::string::group_string_axioms;

    let mut ok = true;
    let mut stem: Vec<char> = Vec::new();
    let mut in_stem = true;
    let mut last: Option<char> = None;
    for c in it: name.chars()
        invariant
            it.seq() == name@,
            ok == (forall|j: int| 0 <= j < it.index() ==> !forbidden_char(#[trigger] name@[j])),
            in_stem == (first_dot(name@.subrange(0, it.index() as int)) == it.index()),
            stem@ == upper_stem(name@.subrange(0, it.index() as int)),
            last == (if it.index() == 0 {
                None
            } else {
                Some(name@[it.index() - 1])
            }),
    {
        let ghost k = it.index();
        let ghost before = name@.subrange(0, k as int);
        let ghost after = name@.subrange(0, k + 1);
        proof {
            assert(after.drop_last() =~= before);
            lemma_first_dot_bounds(before);
            assert(c == name@[k as int]);
        }
        if is_forbidden(c) {
            ok = false;
        }
        if in_stem {
            if c == '.' {
                in_stem = false;
                proof {
                    assert(first_dot(after) == k);
                    assert(upper_stem(after) =~= upper_stem(before));
                }
            } else {
                stem.push(upper(c));
                proof {
                    assert(first_dot(after) == k + 1);
                    assert(stem@ =~= upper_stem(after));
                }
            }
        } else {
            proof {
                assert(first_dot(after) == first_dot(before));
                assert(upper_stem(after) =~= upper_stem(before));
            }
        }
        last = Some(c);
    }
    proof {
        assert(name@.subrange(0, name@.len() as int) =~= name@);
    }
    (ok, stem, last)
}

fn is_reserved(u: &Vec<char>) -> (r: bool)
    ensures
        r == reserved_stem(u@),
{
    if u.len() == 3 {
        let r = (u[0] == 'C' && u[1] == 'O' && u[2] == 'N') || (u[0] == 'P' && u[1] == 'R' && u[2]
            == 'N') || (u[0] == 'A' && u[1] == 'U' && u[2] == 'X') || (u[0] == 'N' && u[1] == 'U'
            && u[2] == 'L');
        proof {
            if r {
            } else {
                assert(u@ != seq!['C', 'O', 'N'] ==> true);
            }
            assert(r == (u@ =~= seq!['C', 'O', 'N'] || u@ =~= seq!['P', 'R', 'N'] || u@ =~= seq![
                'A',
                'U',
                'X',
            ] || u@ =~= seq!['N', 'U', 'L']));
        }
        r
    } else if u.len() == 4 {
        ((u[0] == 'C' && u[1] == 'O' && u[2] == 'M') || (u[0] == 'L' && u[1] == 'P' && u[2] == 'T'))
            && u[3] >= '1' && u[3] <= '9'
    } else {
        false
    }
}

/// Accepts exactly the safe cross-platform leaf names.
pub fn validate_file_name(name: &str) -> (r: Result<(), FileNameError>)
    ensures
        r is Ok <==> safe_file_name(name@, name.spec_bytes().len()),
{
    let (chars_ok, stem, last) = scan(name);
    let n = name.as_bytes().len();
    let is_dots = match last {
        Some(c) => {
            if c == '.' && stem.len() == 0 {
                proof {
                    lemma_first_dot_bounds(name@);
                }
                is_only_dots(name)
            } else {
                false
            }
        },
        None => false,
    };
    if n == 0 || n > MAX_FILE_NAME_LEN || is_dots {
        return Err(FileNameError);
    }
    match last {
        Some(c) => {
            if c == ' ' || c == '.' {
                return Err(FileNameError);
            }
        },
        None => {},
    }
    if !chars_ok {
        return Err(FileNameError);
    }
    if is_reserved(&stem) {
        return Err(FileNameError);
    }
    proof {
        reveal_with_fuel(first_dot, 3);
        if name@ == seq!['.'] {
            assert(name@.drop_last() =~= Seq::<char>::empty());
        }
        if name@ == seq!['.', '.'] {
            assert(name@.drop_last() =~= seq!['.']);
            assert(name@.drop_last().drop_last() =~= Seq::<char>::empty());
        }
    }
    Ok(())
}

/// Whether the name is exactly `.` or `..`.
fn is_only_dots(name: &str) -> (r: bool)
    ensures
        r == (name@ == seq!['.'] || name@ == seq!['.', '.']),
{
    broadcast use vstd::string::group_string_axioms;

    let mut count: usize = 0;
    let mut all_dots = true;
    for c in it: name.chars()
        invariant
            it.seq() == name@,
            count == (if it.index() < 3 {
                it.index() as int
            } else {
                3
            }),
            all_dots == (forall|j: int| 0 <= j < it.index() ==> #[trigger] name@[j] == '.'),
    {
        if c != '.' {
            all_dots = false;
        }
        if count < 3 {
            count = count + 1;
        }
    }
    let r = all_dots && (count == 1 || count == 2);
    proof {
        if r {
            if count == 1 {
                assert(name@ =~= seq!['.']);
            } else {
                assert(name@ =~= seq!['.', '.']);
            }
        }
        if name@ == seq!['.'] || name@ == seq!['.', '.'] {
            assert(count == name@.len());
            assert(forall|j: int| 0 <= j < name@.len() ==> #[trigger] name@[j] == '.');
        }
    }
    r
}

} // verus!
