//! What is asked of the user, and what the answers mean.

use vstd::prelude::*;
use vstd::string::*;

use crate::text::{signed_decimal, signed_text};

verus! {

/// Number of the signal that asks a program to end.
pub const SIGTERM: i32 = 15;

/// Number of the signal of an interrupt from the keyboard.
pub const SIGINT: i32 = 2;

/// What the program is asked to do.
#[derive(Clone, Copy, Debug, PartialEq, Eq, Structural)]
pub enum Command {
    /// Format a target.
    Format,
    /// Open a formatted target.
    Open,
    /// Overwrite a target with random data.
    Sanitize,
}

impl Command {
    /// Whether a command destroys the data on its target, so that it has to be
    /// confirmed.
    pub fn is_destructive(&self) -> (destructive: bool)
        ensures
            destructive == (self is Format || self is Sanitize),
    {
        match self {
            Command::Format => true,
            Command::Open => false,
            Command::Sanitize => true,
        }
    }
}

/// The characters that Unicode counts as white space.
pub open spec fn is_white_space(c: char) -> bool {
    let n = c as u32;
    ||| 9 <= n <= 13
    ||| n == 32
    ||| n == 0x85
    ||| n == 0xa0
    ||| n == 0x1680
    ||| 0x2000 <= n <= 0x200a
    ||| n == 0x2028
    ||| n == 0x2029
    ||| n == 0x202f
    ||| n == 0x205f
    ||| n == 0x3000
}

/// `s` without the white space at its start.
pub open spec fn start_trimmed(s: Seq<char>) -> Seq<char>
    decreases s.len(),
{
    if s.len() > 0 && is_white_space(s.first()) {
        start_trimmed(s.drop_first())
    } else {
        s
    }
}

/// `s` without the white space at its end.
pub open spec fn end_trimmed(s: Seq<char>) -> Seq<char>
    decreases s.len(),
{
    if s.len() > 0 && is_white_space(s.last()) {
        end_trimmed(s.drop_last())
    } else {
        s
    }
}

/// `s` without the white space at both ends.
pub open spec fn trimmed(s: Seq<char>) -> Seq<char> {
    end_trimmed(start_trimmed(s))
}

fn white_space(c: char) -> (result: bool)
    ensures
        result == is_white_space(c),
{
    let n: u32 = c as u32;
    (9 <= n && n <= 13) || n == 32 || n == 0x85 || n == 0xa0 || n == 0x1680 || (0x2000 <= n && n
        <= 0x200a) || n == 0x2028 || n == 0x2029 || n == 0x202f || n == 0x205f || n == 0x3000
}

/// Compares two texts.
fn same_text(a: &str, b: &str) -> (same: bool)
    ensures
        same == (a@ == b@),
{
    let len: usize = a.unicode_len();
    if len != b.unicode_len() {
        return false;
    }
    let mut i: usize = 0;
    while i < len
        invariant
            i <= len == a@.len() == b@.len(),
            forall|j: int| 0 <= j < i ==> a@[j] == b@[j],
        decreases len - i,
    {
        if a.get_char(i) != b.get_char(i) {
            return false;
        }
        i = i + 1;
    }
    proof {
        assert(a@ =~= b@);
    }
    true
}

/// Whether a line typed by the user confirms a destructive action: it holds YES
/// in capital letters, and white space around it at most.
pub fn confirms_danger(line: &str) -> (confirmed: bool)
    ensures
        confirmed == (trimmed(line@) == "YES"@),
{
    let len: usize = line.unicode_len();
    let mut start: usize = 0;
    proof {
        assert(line@.skip(0) =~= line@);
    }
    while start < len && white_space(line.get_char(start))
        invariant
            start <= len == line@.len(),
            start_trimmed(line@) == start_trimmed(line@.skip(start as int)),
        decreases len - start,
    {
        proof {
            assert(line@.skip(start as int).drop_first() =~= line@.skip(start + 1));
        }
        start = start + 1;
    }
    let ghost rest = line@.skip(start as int);
    let mut end: usize = len;
    proof {
        assert(start_trimmed(line@) == rest);
        assert(line@.subrange(start as int, len as int) =~= rest);
    }
    while end > start && white_space(line.get_char(end - 1))
        invariant
            start <= end <= len == line@.len(),
            end_trimmed(rest) == end_trimmed(line@.subrange(start as int, end as int)),
        decreases end,
    {
        proof {
            assert(line@.subrange(start as int, end as int).drop_last() =~= line@.subrange(
                start as int,
                end - 1,
            ));
        }
        end = end - 1;
    }
    same_text(line.substring_char(start, end), "YES")
}

/// What an answer to a request for a password leads to.
#[derive(Clone, Copy, Debug, PartialEq, Eq, Structural)]
pub enum PasswordStep {
    /// Ask for the password from the start.
    AskAgain,
    /// Ask for the password once more.
    AskConfirmation,
    /// Say that the two passwords differ, and ask from the start.
    Mismatch,
    /// Take the password.
    Accept,
}

/// Judges a new password and its repetition, where it was asked for.
pub fn new_password_step(pass: &str, confirmation: Option<&str>) -> (step: PasswordStep)
    ensures
        step == if pass@.len() == 0 {
            PasswordStep::AskAgain
        } else {
            match confirmation {
                None => PasswordStep::AskConfirmation,
                Some(confirmation) => if confirmation@ == pass@ {
                    PasswordStep::Accept
                } else {
                    PasswordStep::Mismatch
                },
            }
        },
{
    if pass.unicode_len() == 0 {
        return PasswordStep::AskAgain;
    }
    match confirmation {
        None => PasswordStep::AskConfirmation,
        Some(confirmation) => if same_text(pass, confirmation) {
            PasswordStep::Accept
        } else {
            PasswordStep::Mismatch
        },
    }
}

/// Judges the password of an existing volume.
pub fn password_step(pass: &str) -> (step: PasswordStep)
    ensures
        step == if pass@.len() == 0 {
            PasswordStep::AskAgain
        } else {
            PasswordStep::Accept
        },
{
    if pass.unicode_len() == 0 {
        PasswordStep::AskAgain
    } else {
        PasswordStep::Accept
    }
}

/// The name that a caught signal is reported by.
pub fn signal_name(signal: i32) -> (name: String)
    ensures
        name@ == if signal == SIGTERM {
            "SIGTERM"@
        } else if signal == SIGINT {
            "SIGINT"@
        } else {
            signed_decimal(signal as int)
        },
{
    if signal == SIGTERM {
        String::from_str("SIGTERM")
    } else if signal == SIGINT {
        String::from_str("SIGINT")
    } else {
        signed_text(signal as i64)
    }
}

/// `s` is made of white space.
pub open spec fn all_white_space(s: Seq<char>) -> bool {
    forall|i: int| 0 <= i < s.len() ==> is_white_space(#[trigger] s[i])
}

/// Of the ASCII characters, the space and those from the tabulator to the
/// carriage return are white space; no printable one is.
pub proof fn printable_characters_are_no_white_space(c: char)
    ensures
        c <= '\x7f' ==> (is_white_space(c) <==> c == ' ' || '\t' <= c <= '\r'),
        '!' <= c <= '~' ==> !is_white_space(c),
{
}

/// Trimming takes away the white space before and behind a text that neither
/// starts nor ends with white space, whatever it is and however much.
pub proof fn trimming_takes_white_space_away(before: Seq<char>, s: Seq<char>, behind: Seq<char>)
    requires
        all_white_space(before),
        all_white_space(behind),
        s.len() > 0,
        !is_white_space(s.first()),
        !is_white_space(s.last()),
    ensures
        trimmed(before + s + behind) == s,
{
    lemma_start_trimmed(before, s + behind);
    lemma_end_trimmed(s, behind);
    assert(before + s + behind =~= before + (s + behind));
}

proof fn lemma_start_trimmed(before: Seq<char>, s: Seq<char>)
    requires
        all_white_space(before),
        s.len() > 0,
        !is_white_space(s.first()),
    ensures
        start_trimmed(before + s) == s,
    decreases before.len(),
{
    if before.len() == 0 {
        assert(before + s =~= s);
    } else {
        assert((before + s).first() == before[0]);
        assert((before + s).drop_first() =~= before.drop_first() + s);
        lemma_start_trimmed(before.drop_first(), s);
    }
}

proof fn lemma_end_trimmed(s: Seq<char>, behind: Seq<char>)
    requires
        all_white_space(behind),
        s.len() > 0,
        !is_white_space(s.last()),
    ensures
        end_trimmed(s + behind) == s,
    decreases behind.len(),
{
    if behind.len() == 0 {
        assert(s + behind =~= s);
    } else {
        assert((s + behind).last() == behind.last());
        assert((s + behind).drop_last() =~= s + behind.drop_last());
        lemma_end_trimmed(s, behind.drop_last());
    }
}

/// What trimming leaves is a part of the text with white space alone before and
/// behind it, and does not start or end with white space itself.
pub proof fn trimming_leaves_all_but_white_space(s: Seq<char>) -> (ends: (int, int))
    ensures
        0 <= ends.0 <= ends.1 <= s.len(),
        trimmed(s) == s.subrange(ends.0, ends.1),
        all_white_space(s.take(ends.0)),
        all_white_space(s.skip(ends.1)),
        ends.0 < ends.1 ==> !is_white_space(s[ends.0]) && !is_white_space(s[ends.1 - 1]),
{
    let a = lemma_start_part(s);
    let rest = start_trimmed(s);
    let b = lemma_end_part(rest);
    assert(trimmed(s) =~= s.subrange(a, a + b));
    assert forall|i: int| 0 <= i < s.skip(a + b).len() implies is_white_space(
        #[trigger] s.skip(a + b)[i],
    ) by {
        assert(s.skip(a + b)[i] == rest.skip(b)[i]);
    }
    (a, a + b)
}

proof fn lemma_start_part(s: Seq<char>) -> (a: int)
    ensures
        0 <= a <= s.len(),
        start_trimmed(s) == s.skip(a),
        all_white_space(s.take(a)),
        a < s.len() ==> !is_white_space(s[a]),
    decreases s.len(),
{
    if s.len() > 0 && is_white_space(s.first()) {
        let t = s.drop_first();
        let a = lemma_start_part(t);
        assert(s.skip(a + 1) =~= t.skip(a));
        assert forall|i: int| 0 <= i < a + 1 implies is_white_space(
            #[trigger] s.take(a + 1)[i],
        ) by {
            if i > 0 {
                assert(s.take(a + 1)[i] == t.take(a)[i - 1]);
            }
        }
        a + 1
    } else {
        assert(s.skip(0) =~= s);
        0
    }
}

proof fn lemma_end_part(s: Seq<char>) -> (b: int)
    ensures
        0 <= b <= s.len(),
        end_trimmed(s) == s.take(b),
        all_white_space(s.skip(b)),
        0 < b ==> !is_white_space(s[b - 1]),
    decreases s.len(),
{
    if s.len() > 0 && is_white_space(s.last()) {
        let t = s.drop_last();
        let b = lemma_end_part(t);
        assert(s.take(b) =~= t.take(b));
        assert forall|i: int| 0 <= i < s.len() - b implies is_white_space(
            #[trigger] s.skip(b)[i],
        ) by {
            if i < t.len() - b {
                assert(s.skip(b)[i] == t.skip(b)[i]);
            }
        }
        b
    } else {
        assert(s.take(s.len() as int) =~= s);
        s.len() as int
    }
}

/// White space is what Unicode lists as such: six control characters, the spaces
/// of all widths, and the line and paragraph separators.
pub proof fn white_space_is_what_unicode_lists(c: char)
    ensures
        is_white_space(c) <==> {
            ||| c == '\t' || c == '\n' || c == '\x0b' || c == '\x0c' || c == '\r' || c == '\u{85}'
            ||| c == ' ' || c == '\u{a0}' || c == '\u{1680}'
            ||| '\u{2000}' <= c <= '\u{200a}'
            ||| c == '\u{2028}' || c == '\u{2029}'
            ||| c == '\u{202f}' || c == '\u{205f}' || c == '\u{3000}'
        },
{
}

} // verus!
