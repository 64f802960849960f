//! Distress-signal packets: tokenizing nested number lists and ordering them.
//!
//! A packet is compared token by token; when a bare number meets a list, the
//! number is wrapped in a virtual one-element list by replaying it and owing
//! a closing bracket, rather than rewriting the input.
use core::cmp::Ordering;
use vstd::prelude::*;

use crate::is_ascii_digit;

verus! {

/// One lexical element of a packet line.
#[derive(Debug, Clone, Copy, PartialEq, Eq, Structural)]
pub enum Token {
    Number(u32),
    ListStart,
    ListEnd,
}

/// Whether `c` may appear in a packet line.
pub open spec fn valid_packet_byte(c: u8) -> bool {
    is_ascii_digit(c) || c == 91 || c == 93 || c == 44
}

/// A well-formed packet line: only packet bytes, and a comma is always
/// followed by another token on the same line.
pub open spec fn packet_wf(s: Seq<u8>) -> bool {
    forall|k: int|
        0 <= k < s.len() ==> valid_packet_byte(#[trigger] s[k]) && (s[k] == 44 ==> k + 1 < s.len()
            && s[k + 1] != 44)
}

/// The tokenizer's state, as plain values.
pub struct TokState {
    pub data: Seq<u8>,
    pub pos: int,
    pub last: Option<Token>,
    pub fake_nesting_level: int,
    pub repeat_last: bool,
}

/// A sound tokenizer state.
pub open spec fn tok_wf(t: TokState) -> bool {
    0 <= t.pos <= t.data.len() && 0 <= t.fake_nesting_level
}

/// Reading a decimal number from `pos`: the position after the digits and
/// the accumulated value, wrapping as `u32` arithmetic does.
pub open spec fn spec_read_num(data: Seq<u8>, pos: int, acc: u32) -> (int, u32)
    decreases data.len() - pos,
{
    if 0 <= pos < data.len() && is_ascii_digit(data[pos]) {
        spec_read_num(
            data,
            pos + 1,
            (((acc as int) * 10 + (data[pos] - 48)) % 0x1_0000_0000) as u32,
        )
    } else {
        (pos, acc)
    }
}

/// Reading a number stays inside the line and consumes at least the first
/// digit.
pub proof fn lemma_read_num_range(data: Seq<u8>, pos: int, acc: u32)
    requires
        0 <= pos <= data.len(),
    ensures
        pos <= spec_read_num(data, pos, acc).0 <= data.len(),
        pos < data.len() && is_ascii_digit(data[pos]) ==> spec_read_num(data, pos, acc).0 >= pos
            + 1,
    decreases data.len() - pos,
{
    if pos < data.len() && is_ascii_digit(data[pos]) {
        lemma_read_num_range(
            data,
            pos + 1,
            (((acc as int) * 10 + (data[pos] - 48)) % 0x1_0000_0000) as u32,
        );
    }
}

/// What one call of `next_token` does to a state, and what it returns.
pub open spec fn spec_next(t: TokState) -> (TokState, Option<Token>) {
    let t1 = if t.pos < t.data.len() && t.data[t.pos] == 44 {
        TokState {
            data: t.data,
            pos: t.pos + 1,
            last: t.last,
            fake_nesting_level: t.fake_nesting_level,
            repeat_last: t.repeat_last,
        }
    } else {
        t
    };
    if t1.repeat_last {
        (
            TokState {
                data: t1.data,
                pos: t1.pos,
                last: t1.last,
                fake_nesting_level: t1.fake_nesting_level,
                repeat_last: false,
            },
            t1.last,
        )
    } else if t1.fake_nesting_level > 0 {
        (
            TokState {
                data: t1.data,
                pos: t1.pos,
                last: t1.last,
                fake_nesting_level: t1.fake_nesting_level - 1,
                repeat_last: false,
            },
            Some(Token::ListEnd),
        )
    } else if t1.pos < t1.data.len() && is_ascii_digit(t1.data[t1.pos]) {
        let read = spec_read_num(t1.data, t1.pos, 0);
        (
            TokState {
                data: t1.data,
                pos: read.0,
                last: Some(Token::Number(read.1)),
                fake_nesting_level: 0,
                repeat_last: false,
            },
            Some(Token::Number(read.1)),
        )
    } else if t1.pos < t1.data.len() && t1.data[t1.pos] == 91 {
        (
            TokState {
                data: t1.data,
                pos: t1.pos + 1,
                last: Some(Token::ListStart),
                fake_nesting_level: 0,
                repeat_last: false,
            },
            Some(Token::ListStart),
        )
    } else if t1.pos < t1.data.len() && t1.data[t1.pos] == 93 {
        (
            TokState {
                data: t1.data,
                pos: t1.pos + 1,
                last: Some(Token::ListEnd),
                fake_nesting_level: 0,
                repeat_last: false,
            },
            Some(Token::ListEnd),
        )
    } else if t1.pos < t1.data.len() {
        (t1, None)
    } else {
        (
            TokState {
                data: t1.data,
                pos: t1.pos,
                last: None,
                fake_nesting_level: 0,
                repeat_last: false,
            },
            None,
        )
    }
}

/// How much of the tokenizer's work remains: three per unread byte, one per
/// owed bracket, one per owed replay.
pub open spec fn tok_measure(t: TokState) -> int {
    3 * (t.data.len() - t.pos) + t.fake_nesting_level + (if t.repeat_last {
        1int
    } else {
        0int
    })
}

/// Each produced token shrinks the measure, a bracket token by a full step;
/// and the state stays sound, the line fixed, positions never move back.
pub proof fn lemma_next_progress(t: TokState)
    requires
        tok_wf(t),
    ensures
        ({
            let (t2, r) = spec_next(t);
            &&& tok_wf(t2)
            &&& t2.data == t.data
            &&& t.pos <= t2.pos
            &&& !t2.repeat_last
            &&& t2.fake_nesting_level <= t.fake_nesting_level
            &&& (r is Some ==> tok_measure(t2) < tok_measure(t))
            &&& (r matches Some(k) ==> (k matches Token::Number(_) ==> t2.last == Some(k)))
            &&& ((r == Some(Token::ListStart) && (t.repeat_last ==> t.last matches Some(
                Token::Number(_),
            ))) ==> tok_measure(t2) <= tok_measure(t) - 3 && t2.pos >= t.pos + 1)
        }),
{
    let t1 = if t.pos < t.data.len() && t.data[t.pos] == 44 {
        TokState {
            data: t.data,
            pos: t.pos + 1,
            last: t.last,
            fake_nesting_level: t.fake_nesting_level,
            repeat_last: t.repeat_last,
        }
    } else {
        t
    };
    if !t1.repeat_last && t1.fake_nesting_level <= 0 && t1.pos < t1.data.len() && is_ascii_digit(
        t1.data[t1.pos],
    ) {
        lemma_read_num_range(t1.data, t1.pos, 0);
    }
}

/// A lazy packet tokenizer over a borrowed line.
pub struct NumberTokenizer<'a> {
    data: &'a [u8],
    pos: usize,
    last: Option<Token>,
    fake_nesting_level: usize,
    repeat_last: bool,
}

impl<'a> View for NumberTokenizer<'a> {
    type V = TokState;

    closed spec fn view(&self) -> TokState {
        TokState {
            data: self.data@,
            pos: self.pos as int,
            last: self.last,
            fake_nesting_level: self.fake_nesting_level as int,
            repeat_last: self.repeat_last,
        }
    }
}

/// Reads the decimal number at `start`.
fn scan_num(data: &[u8], start: usize) -> (r: (usize, u32))
    requires
        start <= data@.len(),
    ensures
        (r.0 as int, r.1) == spec_read_num(data@, start as int, 0),
        start <= r.0 <= data@.len(),
{
    let mut pos = start;
    let mut num: u32 = 0;
    proof {
        lemma_read_num_range(data@, pos as int, num);
    }
    while pos < data.len() && data[pos] >= 48 && data[pos] <= 57
        invariant
            start <= pos <= data@.len(),
            spec_read_num(data@, start as int, 0) == spec_read_num(data@, pos as int, num),
        decreases data@.len() - pos,
    {
        let wide: u64 = (num as u64) * 10 + ((data[pos] - 48) as u64);
        num = (wide % 0x1_0000_0000u64) as u32;
        pos = pos + 1;
    }
    (pos, num)
}

impl<'a> NumberTokenizer<'a> {
    /// A tokenizer at the start of `data`.
    pub fn new(data: &'a [u8]) -> (r: NumberTokenizer<'a>)
        ensures
            r@ == (TokState {
                data: data@,
                pos: 0,
                last: None,
                fake_nesting_level: 0,
                repeat_last: false,
            }),
            tok_wf(r@),
    {
        NumberTokenizer { data, pos: 0, last: None, fake_nesting_level: 0, repeat_last: false }
    }

    /// Owes one virtual closing bracket and replays the last token: this
    /// wraps a bare number into a one-element list.
    pub fn nest(&mut self)
        requires
            tok_wf(old(self)@),
            old(self)@.fake_nesting_level < usize::MAX,
        ensures
            tok_wf(final(self)@),
            final(self)@ == (TokState {
                data: old(self)@.data,
                pos: old(self)@.pos,
                last: old(self)@.last,
                fake_nesting_level: old(self)@.fake_nesting_level + 1,
                repeat_last: true,
            }),
    {
        self.fake_nesting_level = self.fake_nesting_level + 1;
        self.repeat_last = true;
    }

    /// Reads the decimal number at the cursor.
    pub fn read_num(&mut self) -> (n: u32)
        requires
            tok_wf(old(self)@),
        ensures
            tok_wf(final(self)@),
            (final(self)@.pos, n) == spec_read_num(old(self)@.data, old(self)@.pos, 0),
            final(self)@ == (TokState { pos: final(self)@.pos, ..old(self)@ }),
    {
        let (pos, num) = scan_num(self.data, self.pos);
        self.pos = pos;
        num
    }

    /// Produces the next token, or nothing at the end of the line.
    pub fn next_token(&mut self) -> (r: Option<Token>)
        requires
            tok_wf(old(self)@),
            packet_wf(old(self)@.data),
        ensures
            tok_wf(final(self)@),
            (final(self)@, r) == spec_next(old(self)@),
    {
        if self.pos < self.data.len() && self.data[self.pos] == 44 {
            self.pos = self.pos + 1;
        }
        if self.repeat_last {
            self.repeat_last = false;
            return self.last;
        }
        if self.fake_nesting_level > 0 {
            self.fake_nesting_level = self.fake_nesting_level - 1;
            return Some(Token::ListEnd);
        }
        if self.pos == self.data.len() {
            self.last = None;
            return None;
        }
        let c = self.data[self.pos];
        if c >= 48 && c <= 57 {
            let (pos, num) = scan_num(self.data, self.pos);
            self.pos = pos;
            self.last = Some(Token::Number(num));
            self.last
        } else if c == 91 {
            self.pos = self.pos + 1;
            self.last = Some(Token::ListStart);
            self.last
        } else {
            proof {
                assert(c == 93);
            }
            self.pos = self.pos + 1;
            self.last = Some(Token::ListEnd);
            self.last
        }
    }
}

/// True of an ASCII decimal digit byte.
pub fn is_digit(c: u8) -> (r: bool)
    ensures
        r == is_ascii_digit(c),
{
    c >= 48 && c <= 57
}

/// A packet line.
#[derive(Debug)]
pub struct Number(pub Vec<u8>);

impl Number {
    /// Compares two packets token by token, wrapping a bare number into a
    /// virtual list whenever it meets a list on the other side. Equal lines
    /// always compare equal.
    #[verifier::rlimit(60)]
    pub fn compare(&self, other: &Number) -> (r: Ordering)
        requires
            packet_wf(self.0@),
            packet_wf(other.0@),
        ensures
            self.0@ == other.0@ ==> r == Ordering::Equal,
    {
        let mut left = NumberTokenizer::new(self.0.as_slice());
        let mut right = NumberTokenizer::new(other.0.as_slice());
        loop
            invariant
                tok_wf(left@),
                tok_wf(right@),
                packet_wf(self.0@),
                packet_wf(other.0@),
                left@.data == self.0@,
                right@.data == other.0@,
                left@.fake_nesting_level <= right@.pos,
                right@.fake_nesting_level <= left@.pos,
                left@.repeat_last ==> left@.last matches Some(Token::Number(_)),
                right@.repeat_last ==> right@.last matches Some(Token::Number(_)),
                self.0@ == other.0@ ==> left@ == right@,
            decreases tok_measure(left@) + tok_measure(right@),
        {
            proof {
                lemma_next_progress(left@);
                lemma_next_progress(right@);
            }
            let lt = left.next_token();
            let rt = right.next_token();
            match (lt, rt) {
                (None, None) => {
                    return Ordering::Equal;
                },
                (None, Some(_)) => {
                    proof {
                        assert(self.0@ != other.0@);
                    }
                    return Ordering::Less;
                },
                (Some(_), None) => {
                    proof {
                        assert(self.0@ != other.0@);
                    }
                    return Ordering::Greater;
                },
                (Some(x), Some(y)) if x == y => {
                },
                (Some(Token::Number(a)), Some(Token::Number(b))) => {
                    proof {
                        assert(self.0@ != other.0@);
                    }
                    if a < b {
                        return Ordering::Less;
                    } else {
                        return Ordering::Greater;
                    }
                },
                (Some(Token::ListStart), Some(Token::Number(_))) => {
                    right.nest();
                },
                (Some(Token::Number(_)), Some(Token::ListStart)) => {
                    left.nest();
                },
                (Some(Token::ListEnd), _) => {
                    proof {
                        assert(self.0@ != other.0@);
                    }
                    return Ordering::Less;
                },
                (_, Some(Token::ListEnd)) => {
                    proof {
                        assert(self.0@ != other.0@);
                    }
                    return Ordering::Greater;
                },
                _ => {
                    proof {
                        assert(false);
                    }
                    return Ordering::Equal;
                },
            }
        }
    }
}

} // verus!
