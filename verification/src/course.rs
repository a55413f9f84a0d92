//! Command mode: a command's output becomes a course, one pipe per non-blank
//! line, each line fixing its pipe's gap through an FNV-1a hash.

use crate::rules::max_gap_top;
use vstd::prelude::*;
use vstd::utf8::{decode_utf8, valid_utf8};

verus! {

/// FNV-1a offset basis.
pub const FNV_OFFSET: u64 = 0xcbf2_9ce4_8422_2325;

/// FNV-1a prime.
pub const FNV_PRIME: u64 = 0x0000_0100_0000_01b3;

/// FNV-1a 64-bit hash of a byte sequence.
pub open spec fn fnv_hash(bytes: Seq<u8>) -> u64
    decreases bytes.len(),
{
    if bytes.len() == 0 {
        FNV_OFFSET
    } else {
        vstd::wrapping::u64_specs::wrapping_mul(
            fnv_hash(bytes.drop_last()) ^ (bytes.last() as u64),
            FNV_PRIME,
        )
    }
}

/// FNV-1a 64-bit hash (deterministic, no dependencies).
pub fn fnv1a(bytes: &[u8]) -> (h: u64)
    ensures
        h == fnv_hash(bytes@),
{
    let mut h: u64 = FNV_OFFSET;
    let n = bytes.len();
    let mut i: usize = 0;
    while i < n
        invariant
            n == bytes@.len(),
            i <= n,
            h == fnv_hash(bytes@.take(i as int)),
        decreases n - i,
    {
        assert(bytes@.take(i + 1).drop_last() =~= bytes@.take(i as int));
        h = h ^ (bytes[i] as u64);
        h = h.wrapping_mul(FNV_PRIME);
        i = i + 1;
    }
    assert(bytes@.take(n as int) =~= bytes@);
    h
}

/// Gap top of the pipe that a line stands for: `1 + hash % (rows - 1 - pipe_gap)`.
pub open spec fn gap_top_of(line: Seq<char>, rows: int, pipe_gap: int) -> int {
    1 + (fnv_hash(vstd::utf8::encode_utf8(line)) as int) % max_gap_top(rows, pipe_gap)
}

/// Gap top in `[1, rows - 1 - pipe_gap]` for a line, from a hash of its bytes:
/// the same line always gives the same gap.
pub fn gap_top_for(line: &str, rows: u16, pipe_gap: u16) -> (r: u16)
    requires
        pipe_gap + 2 <= rows,
    ensures
        r == gap_top_of(line@, rows as int, pipe_gap as int),
        1 <= r <= max_gap_top(rows as int, pipe_gap as int),
{
    let hi = (rows - 1 - pipe_gap) as u64;
    let h = fnv1a(line.as_bytes());
    let off = h % hi;
    1 + off as u16
}

/// The course of some lines: line `i` gives the gap top of pipe `i`.
pub fn build_course(lines: &[String], rows: u16, pipe_gap: u16) -> (r: Vec<u16>)
    requires
        pipe_gap + 2 <= rows,
    ensures
        r@.len() == lines@.len(),
        forall|i: int|
            0 <= i < lines@.len() ==> #[trigger] r@[i] == gap_top_of(
                lines@[i]@,
                rows as int,
                pipe_gap as int,
            ),
{
    let mut r: Vec<u16> = Vec::new();
    let n = lines.len();
    let mut i: usize = 0;
    while i < n
        invariant
            n == lines@.len(),
            pipe_gap + 2 <= rows,
            i <= n,
            r@.len() == i,
            forall|j: int|
                0 <= j < i ==> #[trigger] r@[j] == gap_top_of(lines@[j]@, rows as int, pipe_gap as int),
        decreases n - i,
    {
        let g = gap_top_for(lines[i].as_str(), rows, pipe_gap);
        r.push(g);
        i = i + 1;
    }
    r
}

/// The Unicode `White_Space` characters.
pub open spec fn white_space(c: char) -> bool {
    let v = c as u32;
    ||| 0x09 <= v <= 0x0D
    ||| v == 0x20
    ||| v == 0x85
    ||| v == 0xA0
    ||| v == 0x1680
    ||| 0x2000 <= v <= 0x200A
    ||| v == 0x2028
    ||| v == 0x2029
    ||| v == 0x202F
    ||| v == 0x205F
    ||| v == 0x3000
}

/// Whether `c` has the Unicode `White_Space` property (as `char::is_whitespace`).
pub fn is_white_space(c: char) -> (r: bool)
    ensures
        r == white_space(c),
{
    let v = c as u32;
    (0x09 <= v && v <= 0x0D) || v == 0x20 || v == 0x85 || v == 0xA0 || v == 0x1680 || (0x2000 <= v
        && v <= 0x200A) || v == 0x2028 || v == 0x2029 || v == 0x202F || v == 0x205F || v == 0x3000
}

/// What `String::from_utf8_lossy` makes of some bytes.
pub uninterp spec fn lossy_decode(bytes: Seq<u8>) -> Seq<char>;

/// `String::from_utf8_lossy`, made owned: valid UTF-8 is decoded as it is;
/// what it makes of invalid sequences (replacement characters) is left to its name.
#[verifier::external_body]
fn utf8_lossy(bytes: &[u8]) -> (r: String)
    ensures
        r@ == lossy_decode(bytes@),
        valid_utf8(bytes@) ==> r@ == decode_utf8(bytes@),
{
    String::from_utf8_lossy(bytes).into_owned()
}

/// Some character of the line is not white space.
pub open spec fn has_ink(line: Seq<char>) -> bool {
    exists|i: int| 0 <= i < line.len() && !white_space(#[trigger] line[i])
}

/// A line as `str::lines` yields it: without its `\n`, and without a `\r` just before it.
pub open spec fn strip_cr(line: Seq<char>) -> Seq<char> {
    if line.len() > 0 && line.last() == '\r' {
        line.drop_last()
    } else {
        line
    }
}

/// The lines of a text that hold something other than white space, in order.
/// `done` are the lines found so far; `cur` is the line being read.
pub open spec fn ink_lines_from(text: Seq<char>, done: Seq<Seq<char>>, cur: Seq<char>) -> Seq<Seq<char>>
    decreases text.len(),
{
    if text.len() == 0 {
        if has_ink(cur) {
            done.push(cur)
        } else {
            done
        }
    } else if text[0] == '\n' {
        let line = strip_cr(cur);
        ink_lines_from(
            text.drop_first(),
            if has_ink(line) {
                done.push(line)
            } else {
                done
            },
            Seq::empty(),
        )
    } else {
        ink_lines_from(text.drop_first(), done, cur.push(text[0]))
    }
}

/// The non-blank lines of a text.
pub open spec fn ink_lines(text: Seq<char>) -> Seq<Seq<char>> {
    ink_lines_from(text, Seq::empty(), Seq::empty())
}

fn line_has_ink(line: &str) -> (r: bool)
    ensures
        r == has_ink(line@),
{
    let n = line.unicode_len();
    let mut i: usize = 0;
    while i < n
        invariant
            n == line@.len(),
            i <= n,
            forall|j: int| 0 <= j < i ==> white_space(#[trigger] line@[j]),
        decreases n - i,
    {
        if !is_white_space(line.get_char(i)) {
            return true;
        }
        i = i + 1;
    }
    false
}

/// Ends the line read so far: keeps it (without a final `\r`) if it is not blank.
fn finish_line(out: &mut Vec<String>, cur: &String, strip: bool)
    ensures
        lines_of(final(out)@) == if has_ink(
            if strip {
                strip_cr(cur@)
            } else {
                cur@
            },
        ) {
            lines_of(old(out)@).push(
                if strip {
                    strip_cr(cur@)
                } else {
                    cur@
                },
            )
        } else {
            lines_of(old(out)@)
        },
{
    let s = cur.as_str();
    let n = s.unicode_len();
    let line: &str = if strip && n > 0 && s.get_char(n - 1) == '\r' {
        s.substring_char(0, n - 1)
    } else {
        s
    };
    proof {
        if strip && n > 0 && cur@.last() == '\r' {
            assert(line@ =~= strip_cr(cur@));
        }
    }
    if line_has_ink(line) {
        out.push(line.to_owned());
        assert(lines_of(out@) =~= lines_of(old(out)@).push(line@));
    }
}

/// The character sequences of some strings.
pub open spec fn lines_of(v: Seq<String>) -> Seq<Seq<char>> {
    Seq::new(v.len(), |i: int| v[i]@)
}

/// The non-blank lines of some command output, decoded as UTF-8 (invalid
/// sequences replaced): split at `\n`, a `\r` before the `\n` dropped, lines
/// of white space only left out.
pub fn nonblank_lines(stdout: &[u8]) -> (r: Vec<String>)
    ensures
        lines_of(r@) == ink_lines(lossy_decode(stdout@)),
        valid_utf8(stdout@) ==> lines_of(r@) == ink_lines(decode_utf8(stdout@)),
{
    let text = utf8_lossy(stdout);
    let t = text.as_str();
    let n = t.unicode_len();
    let mut out: Vec<String> = Vec::new();
    let mut cur = String::new();
    let mut i: usize = 0;
    assert(t@.skip(0) =~= t@);
    assert(lines_of(out@) =~= Seq::<Seq<char>>::empty());
    while i < n
        invariant
            n == t@.len(),
            i <= n,
            ink_lines(t@) == ink_lines_from(t@.skip(i as int), lines_of(out@), cur@),
        decreases n - i,
    {
        let c = t.get_char(i);
        proof {
            assert(t@.skip(i as int).drop_first() =~= t@.skip(i + 1));
            assert(t@.skip(i as int)[0] == c);
        }
        if c == '\n' {
            finish_line(&mut out, &cur, true);
            cur = String::new();
        } else {
            cur.push(c);
        }
        i = i + 1;
    }
    finish_line(&mut out, &cur, false);
    proof {
        assert(t@.skip(n as int) =~= Seq::<char>::empty());
    }
    out
}

} // verus!
