//! Reading back what `systemd-escape` printed.
//!
//! The caller runs `systemd-escape NAME` (to escape) or `systemd-escape -u NAME`
//! (to unescape) and hands over the captured standard output, if there was
//! one. The printed name is that output decoded as UTF-8, with the surrounding
//! white space (the trailing newline among it) removed.
use vstd::prelude::*;
use crate::CustomError;
use vstd::utf8::{
    decode_utf8, encode_utf8, encode_utf8_decode_utf8, encode_utf8_valid_utf8, valid_utf8,
};

verus! {

#[verifier::external_type_specification]
#[verifier::external_body]
pub struct ExFromUtf8Error(std::string::FromUtf8Error);

/// White space as Unicode's `White_Space` property defines it.
pub open spec fn is_white_space(c: char) -> bool {
    let u = c as u32;
    ||| 0x9 <= u <= 0xd
    ||| u == 0x20
    ||| u == 0x85
    ||| u == 0xa0
    ||| u == 0x1680
    ||| 0x2000 <= u <= 0x200a
    ||| u == 0x2028
    ||| u == 0x2029
    ||| u == 0x202f
    ||| u == 0x205f
    ||| u == 0x3000
}

/// `s` without its leading white space.
pub open spec fn trim_start_spec(s: Seq<char>) -> Seq<char>
    decreases s.len(),
{
    if s.len() > 0 && is_white_space(s[0]) {
        trim_start_spec(s.drop_first())
    } else {
        s
    }
}

/// `s` without its trailing white space.
pub open spec fn trim_end_spec(s: Seq<char>) -> Seq<char>
    decreases s.len(),
{
    if s.len() > 0 && is_white_space(s.last()) {
        trim_end_spec(s.drop_last())
    } else {
        s
    }
}

/// `s` without leading and trailing white space.
pub open spec fn trim_spec(s: Seq<char>) -> Seq<char> {
    trim_end_spec(trim_start_spec(s))
}

/// Whether `s` is `t` with the white space at both ends removed: `s` is a
/// stretch of `t`, everything in `t` before and after it is white space, and
/// `s` neither starts nor ends with white space.
pub open spec fn is_trim_of(s: Seq<char>, t: Seq<char>) -> bool {
    exists|i: int, j: int|
        {
            &&& 0 <= i <= j <= t.len()
            &&& s == t.subrange(i, j)
            &&& forall|k: int| 0 <= k < i ==> is_white_space(#[trigger] t[k])
            &&& forall|k: int| j <= k < t.len() ==> is_white_space(#[trigger] t[k])
            &&& s.len() > 0 ==> !is_white_space(s[0]) && !is_white_space(s[s.len() - 1])
        }
}

/// Removing leading white space drops a white prefix and stops at the first
/// other character.
proof fn lemma_trim_start(t: Seq<char>) -> (i: int)
    ensures
        0 <= i <= t.len(),
        trim_start_spec(t) == t.subrange(i, t.len() as int),
        forall|k: int| 0 <= k < i ==> is_white_space(#[trigger] t[k]),
        i < t.len() ==> !is_white_space(t[i]),
    decreases t.len(),
{
    if t.len() > 0 && is_white_space(t[0]) {
        let i0 = lemma_trim_start(t.drop_first());
        assert(t.drop_first().subrange(i0, t.len() - 1) =~= t.subrange(i0 + 1, t.len() as int));
        assert forall|k: int| 0 <= k < i0 + 1 implies is_white_space(#[trigger] t[k]) by {
            if k > 0 {
                assert(t[k] == t.drop_first()[k - 1]);
            }
        }
        assert(i0 < t.len() - 1 ==> t[i0 + 1] == t.drop_first()[i0]);
        i0 + 1
    } else {
        assert(t.subrange(0, t.len() as int) =~= t);
        0
    }
}

/// Removing trailing white space drops a white suffix and stops at the last
/// other character.
proof fn lemma_trim_end(t: Seq<char>) -> (j: int)
    ensures
        0 <= j <= t.len(),
        trim_end_spec(t) == t.subrange(0, j),
        forall|k: int| j <= k < t.len() ==> is_white_space(#[trigger] t[k]),
        j > 0 ==> !is_white_space(t[j - 1]),
    decreases t.len(),
{
    if t.len() > 0 && is_white_space(t.last()) {
        let j0 = lemma_trim_end(t.drop_last());
        assert(t.drop_last().subrange(0, j0) =~= t.subrange(0, j0));
        assert forall|k: int| j0 <= k < t.len() implies is_white_space(#[trigger] t[k]) by {
            if k < t.len() - 1 {
                assert(t[k] == t.drop_last()[k]);
            }
        }
        assert(j0 > 0 ==> t[j0 - 1] == t.drop_last()[j0 - 1]);
        j0
    } else {
        assert(t.subrange(0, t.len() as int) =~= t);
        t.len() as int
    }
}

/// `trim_spec` removes exactly the white space at both ends.
pub proof fn lemma_trim_spec_is_trim(t: Seq<char>)
    ensures
        is_trim_of(trim_spec(t), t),
{
    let i = lemma_trim_start(t);
    let u = t.subrange(i, t.len() as int);
    let j0 = lemma_trim_end(u);
    let s = trim_spec(t);
    assert(s =~= t.subrange(i, i + j0));
    assert forall|k: int| i + j0 <= k < t.len() implies is_white_space(#[trigger] t[k]) by {
        assert(t[k] == u[k - i]);
    }
    if s.len() > 0 {
        assert(s[0] == t[i]);
        assert(s[s.len() - 1] == u[j0 - 1]);
    }
    assert(0 <= i <= i + j0 <= t.len() && s == t.subrange(i, i + j0) && (forall|k: int|
        0 <= k < i ==> is_white_space(#[trigger] t[k])) && (forall|k: int|
        i + j0 <= k < t.len() ==> is_white_space(#[trigger] t[k])) && (s.len() > 0
        ==> !is_white_space(s[0]) && !is_white_space(s[s.len() - 1])));
}

/// There is only one way to remove the white space at both ends of a text.
pub proof fn law_trim_is_unique(s1: Seq<char>, s2: Seq<char>, t: Seq<char>)
    requires
        is_trim_of(s1, t),
        is_trim_of(s2, t),
    ensures
        s1 == s2,
{
    let (i1, j1) = choose|i: int, j: int|
        {
            &&& 0 <= i <= j <= t.len()
            &&& s1 == t.subrange(i, j)
            &&& forall|k: int| 0 <= k < i ==> is_white_space(#[trigger] t[k])
            &&& forall|k: int| j <= k < t.len() ==> is_white_space(#[trigger] t[k])
            &&& s1.len() > 0 ==> !is_white_space(s1[0]) && !is_white_space(s1[s1.len() - 1])
        };
    let (i2, j2) = choose|i: int, j: int|
        {
            &&& 0 <= i <= j <= t.len()
            &&& s2 == t.subrange(i, j)
            &&& forall|k: int| 0 <= k < i ==> is_white_space(#[trigger] t[k])
            &&& forall|k: int| j <= k < t.len() ==> is_white_space(#[trigger] t[k])
            &&& s2.len() > 0 ==> !is_white_space(s2[0]) && !is_white_space(s2[s2.len() - 1])
        };
    if s1.len() > 0 && s2.len() > 0 {
        assert(s1[0] == t[i1]);
        assert(s2[0] == t[i2]);
        assert(s1[s1.len() - 1] == t[j1 - 1]);
        assert(s2[s2.len() - 1] == t[j2 - 1]);
        if i1 < i2 {
            assert(is_white_space(t[i1]));
        }
        if i2 < i1 {
            assert(is_white_space(t[i2]));
        }
        if j1 < j2 {
            assert(is_white_space(t[j2 - 1]));
        }
        if j2 < j1 {
            assert(is_white_space(t[j1 - 1]));
        }
    } else if s1.len() > 0 {
        assert(s1[0] == t[i1]);
        if i1 < i2 {
            assert(is_white_space(t[i1]));
        } else {
            assert(is_white_space(t[i1]));
        }
    } else if s2.len() > 0 {
        assert(s2[0] == t[i2]);
        if i2 < i1 {
            assert(is_white_space(t[i2]));
        } else {
            assert(is_white_space(t[i2]));
        }
    } else {
        assert(s1 =~= s2);
    }
}

/// Calls `String::from_utf8`, which per its documentation succeeds exactly
/// on valid UTF-8 and then holds the decoded characters. Of the error nothing
/// is stated: it holds the very buffer that was passed in, whose allocation is
/// not a function of the bytes.
#[verifier::external_body]
fn string_from_utf8(bytes: Vec<u8>) -> (r: Result<String, std::string::FromUtf8Error>)
    ensures
        r is Ok <==> valid_utf8(bytes@),
        r matches Ok(s) ==> s@ == decode_utf8(bytes@),
{
    String::from_utf8(bytes)
}

/// Calls `str::trim`, which per its documentation removes the leading and
/// trailing characters with Unicode's `White_Space` property.
#[verifier::external_body]
fn trim_white_space(s: &str) -> (r: &str)
    ensures
        r@ == trim_spec(s@),
{
    s.trim()
}

/// Why the output of `systemd-escape` could not be read back.
#[derive(Debug)]
pub enum EscapeError {
    /// The process had no standard output to read.
    NoStandardOutput(CustomError),
    /// The standard output was not valid UTF-8: the error that decoding it gave.
    InvalidUtf8(std::string::FromUtf8Error),
}

/// The message of the error for a process without standard output.
pub open spec fn no_output_message() -> Seq<char> {
    "Error: no result in standard output."@
}

/// The name that valid UTF-8 output holds: the decoded text without the
/// white space around it.
pub open spec fn decoded_name_spec(bytes: Seq<u8>) -> Seq<char> {
    trim_spec(decode_utf8(bytes))
}

/// Whether `r` is what reading back the captured output `stdout` gives: an
/// error when there was no output, an `InvalidUtf8` error when the output is
/// not valid UTF-8, and else the decoded, trimmed name. (The `InvalidUtf8`
/// value is the error that `String::from_utf8` returned; which value that is
/// is left unsaid, since it holds the caller's own buffer.)
pub open spec fn captured_name_result(stdout: Option<Seq<u8>>, r: Result<String, EscapeError>) -> bool {
    match stdout {
        None => match r {
            Err(EscapeError::NoStandardOutput(c)) => c.0@ == no_output_message(),
            _ => false,
        },
        Some(bytes) => if valid_utf8(bytes) {
            match r {
                Ok(s) => s@ == decoded_name_spec(bytes),
                _ => false,
            }
        } else {
            match r {
                Err(EscapeError::InvalidUtf8(_)) => true,
                _ => false,
            }
        },
    }
}

/// The view of an optional byte buffer.
pub open spec fn bytes_view(stdout: Option<Vec<u8>>) -> Option<Seq<u8>> {
    match stdout {
        Some(b) => Some(b@),
        None => None,
    }
}

/// Decodes the captured output and trims the white space around the name.
fn read_captured_name(stdout: Option<Vec<u8>>) -> (r: Result<String, EscapeError>)
    ensures
        captured_name_result(bytes_view(stdout), r),
{
    match stdout {
        None => Err(
            EscapeError::NoStandardOutput(
                CustomError("Error: no result in standard output.".to_owned()),
            ),
        ),
        Some(bytes) => match string_from_utf8(bytes) {
            Ok(s) => Ok(trim_white_space(s.as_str()).to_owned()),
            Err(e) => Err(EscapeError::InvalidUtf8(e)),
        },
    }
}

/// The escaped form of a name, read from the standard output of
/// `systemd-escape NAME` (`None` when the process had no standard output).
pub fn escape_name(stdout: Option<Vec<u8>>) -> (r: Result<String, EscapeError>)
    ensures
        captured_name_result(bytes_view(stdout), r),
        r is Ok <==> (stdout is Some && valid_utf8(stdout->0@)),
        r matches Ok(s) ==> is_trim_of(s@, decode_utf8(stdout->0@)),
        stdout is None ==> r matches Err(EscapeError::NoStandardOutput(_)),
        (stdout is Some && !valid_utf8(stdout->0@)) ==> r matches Err(EscapeError::InvalidUtf8(_)),
{
    proof {
        if stdout is Some {
            lemma_trim_spec_is_trim(decode_utf8(stdout->0@));
        }
    }
    read_captured_name(stdout)
}

/// The plain form of an escaped name, read from the standard output of
/// `systemd-escape -u NAME` (`None` when the process had no standard output).
pub fn unescaped_name(stdout: Option<Vec<u8>>) -> (r: Result<String, EscapeError>)
    ensures
        captured_name_result(bytes_view(stdout), r),
        r is Ok <==> (stdout is Some && valid_utf8(stdout->0@)),
        r matches Ok(s) ==> is_trim_of(s@, decode_utf8(stdout->0@)),
        stdout is None ==> r matches Err(EscapeError::NoStandardOutput(_)),
        (stdout is Some && !valid_utf8(stdout->0@)) ==> r matches Err(EscapeError::InvalidUtf8(_)),
{
    proof {
        if stdout is Some {
            lemma_trim_spec_is_trim(decode_utf8(stdout->0@));
        }
    }
    read_captured_name(stdout)
}

/// Whether `name` neither starts nor ends with white space.
pub open spec fn is_trimmed(name: Seq<char>) -> bool {
    name.len() == 0 || (!is_white_space(name[0]) && !is_white_space(name.last()))
}

/// A name that `systemd-escape` printed on a line of its own, as UTF-8, is
/// read back unchanged, whether it was asked to escape or to unescape.
pub proof fn law_printed_name_reads_back(name: Seq<char>)
    requires
        is_trimmed(name),
    ensures
        valid_utf8(encode_utf8(name + seq!['\n'])),
        decoded_name_spec(encode_utf8(name + seq!['\n'])) == name,
{
    let line = name + seq!['\n'];
    encode_utf8_valid_utf8(line);
    encode_utf8_decode_utf8(line);
    assert(is_white_space('\n'));
    if name.len() == 0 {
        assert(line.drop_first() =~= Seq::<char>::empty());
        assert(trim_start_spec(line) == trim_start_spec(Seq::<char>::empty()));
        assert(trim_spec(line) =~= name);
    } else {
        assert(line[0] == name[0]);
        assert(trim_start_spec(line) == line);
        assert(line.drop_last() =~= name);
        assert(line.last() == '\n');
        assert(trim_end_spec(line) == trim_end_spec(name));
        assert(trim_end_spec(name) == name);
        assert(trim_spec(line) == name);
    }
    assert(decode_utf8(encode_utf8(line)) == line);
    assert(trim_spec(decode_utf8(encode_utf8(line))) == name);
}

/// What reading back yields from valid UTF-8 output is the decoded text with
/// the white space at both ends removed, and nothing else: it is a stretch of
/// the decoded text, only white space lies around it, and it neither starts
/// nor ends with white space. Output that is missing or not UTF-8 yields an error.
pub proof fn law_read_back_is_trimmed_text(stdout: Option<Seq<u8>>, r: Result<String, EscapeError>)
    requires
        captured_name_result(stdout, r),
    ensures
        r is Ok <==> (stdout is Some && valid_utf8(stdout->0)),
        r matches Ok(s) ==> is_trim_of(s@, decode_utf8(stdout->0)),
{
    if stdout is Some {
        lemma_trim_spec_is_trim(decode_utf8(stdout->0));
    }
}

} // verus!
