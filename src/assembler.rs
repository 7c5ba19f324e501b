//! Program text to a 16-byte memory image.
use vstd::prelude::*;
use vstd::string::StrSliceExecFns;
use crate::control::{ADD, HALT, JC, JMP, JZ, LDA, LDI, OUT, STA, SUB};

verus! {

/// ASCII whitespace: space, tab, line feed, form feed, carriage return.
pub open spec fn is_ascii_ws(c: char) -> bool {
    c == ' ' || c == '\t' || c == '\n' || c == '\x0C' || c == '\r'
}

/// Number of characters before the first line feed (all of them if none).
pub open spec fn line_len(s: Seq<char>) -> nat
    decreases s.len(),
{
    if s.len() == 0 || s[0] == '\n' {
        0
    } else {
        1 + line_len(s.drop_first())
    }
}

/// The lines of `s`: split at each line feed, with no empty line after a
/// final line feed. (A carriage return before a line feed stays in its line;
/// being whitespace, it never changes the line's words.)
pub open spec fn lines(s: Seq<char>) -> Seq<Seq<char>>
    decreases s.len(),
{
    if s.len() == 0 {
        seq![]
    } else {
        let k = line_len(s) as int;
        if k < s.len() {
            seq![s.subrange(0, k)] + lines(s.subrange(k + 1int, s.len() as int))
        } else {
            seq![s]
        }
    }
}

/// The maximal runs of non-whitespace characters of `s`, in order.
pub open spec fn words(s: Seq<char>) -> Seq<Seq<char>>
    decreases s.len(),
{
    if s.len() == 0 {
        seq![]
    } else {
        let p = words(s.drop_last());
        let c = s.last();
        if is_ascii_ws(c) {
            p
        } else if s.len() >= 2 && !is_ascii_ws(s[s.len() - 2]) {
            p.update(p.len() - 1, p.last().push(c))
        } else {
            p.push(seq![c])
        }
    }
}

pub open spec fn is_digit(c: char) -> bool {
    '0' <= c <= '9'
}

pub open spec fn all_digits(s: Seq<char>) -> bool {
    forall|i: int| 0 <= i < s.len() ==> is_digit(#[trigger] s[i])
}

/// The number that the decimal digits `s` write.
pub open spec fn decimal(s: Seq<char>) -> nat
    decreases s.len(),
{
    if s.len() == 0 {
        0
    } else {
        decimal(s.drop_last()) * 10 + ((s.last() as u32) - ('0' as u32)) as nat
    }
}

/// `t` read as a byte: an optional `+`, then one or more decimal digits
/// writing a number up to 255.
pub open spec fn byte_value(t: Seq<char>) -> Option<u8> {
    let d = if t.len() > 0 && t[0] == '+' { t.drop_first() } else { t };
    if d.len() > 0 && all_digits(d) && decimal(d) <= 255 {
        Some(decimal(d) as u8)
    } else {
        None
    }
}

/// `c` is the uppercase ASCII letter `u` in either case.
pub open spec fn same_letter(c: char, u: char) -> bool {
    c == u || (c as u32) == (u as u32) + 32
}

pub open spec fn is_word2(t: Seq<char>, x: char, y: char) -> bool {
    t.len() == 2 && same_letter(t[0], x) && same_letter(t[1], y)
}

pub open spec fn is_word3(t: Seq<char>, x: char, y: char, z: char) -> bool {
    t.len() == 3 && same_letter(t[0], x) && same_letter(t[1], y) && same_letter(t[2], z)
}

/// The opcode that the mnemonic `t` names, in any case.
pub open spec fn mnemonic_code(t: Seq<char>) -> Option<u8> {
    if is_word3(t, 'L', 'D', 'A') {
        Some(LDA)
    } else if is_word3(t, 'A', 'D', 'D') {
        Some(ADD)
    } else if is_word3(t, 'S', 'U', 'B') {
        Some(SUB)
    } else if is_word3(t, 'S', 'T', 'A') {
        Some(STA)
    } else if is_word3(t, 'L', 'D', 'I') {
        Some(LDI)
    } else if is_word3(t, 'J', 'M', 'P') {
        Some(JMP)
    } else if is_word2(t, 'J', 'C') {
        Some(JC)
    } else if is_word2(t, 'J', 'Z') {
        Some(JZ)
    } else if is_word3(t, 'O', 'U', 'T') {
        Some(OUT)
    } else if is_word3(t, 'H', 'L', 'T') {
        Some(HALT)
    } else {
        None
    }
}

/// The memory byte that a line assembles to, or `None` if the line is invalid:
/// no word gives 0; one word is a byte literal, or OUT or HLT with operand 0;
/// two words are a mnemonic and a byte literal, the opcode in the high nibble
/// or-ed with the literal.
pub open spec fn line_value(l: Seq<char>) -> Option<u8> {
    let w = words(l);
    if w.len() == 0 {
        Some(0u8)
    } else if w.len() == 1 {
        if byte_value(w[0]) is Some {
            byte_value(w[0])
        } else if is_word3(w[0], 'O', 'U', 'T') {
            Some((OUT * 16) as u8)
        } else if is_word3(w[0], 'H', 'L', 'T') {
            Some((HALT * 16) as u8)
        } else {
            None
        }
    } else if w.len() == 2 {
        if mnemonic_code(w[0]) is Some && byte_value(w[1]) is Some {
            Some(((mnemonic_code(w[0])->0 * 16) as u8) | byte_value(w[1])->0)
        } else {
            None
        }
    } else {
        None
    }
}

/// Number of lines that the assembler reads: at most 16.
pub open spec fn lines_read(s: Seq<char>) -> int {
    if lines(s).len() < 16 { lines(s).len() as int } else { 16 }
}

/// The memory image of program text `s`: each of its first 16 lines assembled,
/// the remaining cells 0; `None` if any of those lines is invalid.
pub open spec fn program_image(s: Seq<char>) -> Option<Seq<u8>> {
    let ls = lines(s);
    let n = lines_read(s);
    if forall|i: int| 0 <= i < n ==> line_value(#[trigger] ls[i]) is Some {
        Some(Seq::new(16, |i: int| if i < n { line_value(ls[i])->0 } else { 0u8 }))
    } else {
        None
    }
}


/// Whether `c` is ASCII whitespace.
fn is_ws(c: char) -> (r: bool)
    ensures
        r == is_ascii_ws(c),
{
    c == ' ' || c == '\t' || c == '\n' || c == '\x0C' || c == '\r'
}

/// Whether `c` is the uppercase ASCII letter `u` in either case.
fn letter_is(c: char, u: char) -> (r: bool)
    ensures
        r == same_letter(c, u),
{
    c == u || ((c as u32) >= 32 && (c as u32) - 32 == (u as u32))
}

fn word_is2(s: &str, from: usize, to: usize, x: char, y: char) -> (r: bool)
    requires
        from <= to <= s@.len(),
    ensures
        r == is_word2(s@.subrange(from as int, to as int), x, y),
{
    to - from == 2 && letter_is(s.get_char(from), x) && letter_is(s.get_char(from + 1), y)
}

fn word_is3(s: &str, from: usize, to: usize, x: char, y: char, z: char) -> (r: bool)
    requires
        from <= to <= s@.len(),
    ensures
        r == is_word3(s@.subrange(from as int, to as int), x, y, z),
{
    to - from == 3 && letter_is(s.get_char(from), x) && letter_is(s.get_char(from + 1), y)
        && letter_is(s.get_char(from + 2), z)
}

/// The opcode named by the characters `from..to` of `s`.
fn mnemonic(s: &str, from: usize, to: usize) -> (r: Option<u8>)
    requires
        from <= to <= s@.len(),
    ensures
        r == mnemonic_code(s@.subrange(from as int, to as int)),
{
    if word_is3(s, from, to, 'L', 'D', 'A') {
        Some(LDA)
    } else if word_is3(s, from, to, 'A', 'D', 'D') {
        Some(ADD)
    } else if word_is3(s, from, to, 'S', 'U', 'B') {
        Some(SUB)
    } else if word_is3(s, from, to, 'S', 'T', 'A') {
        Some(STA)
    } else if word_is3(s, from, to, 'L', 'D', 'I') {
        Some(LDI)
    } else if word_is3(s, from, to, 'J', 'M', 'P') {
        Some(JMP)
    } else if word_is2(s, from, to, 'J', 'C') {
        Some(JC)
    } else if word_is2(s, from, to, 'J', 'Z') {
        Some(JZ)
    } else if word_is3(s, from, to, 'O', 'U', 'T') {
        Some(OUT)
    } else if word_is3(s, from, to, 'H', 'L', 'T') {
        Some(HALT)
    } else {
        None
    }
}

/// A prefix of a run of digits writes no larger a number than the whole run.
proof fn lemma_decimal_prefix(d: Seq<char>, k: int)
    requires
        0 <= k <= d.len(),
        all_digits(d),
    ensures
        decimal(d.subrange(0, k)) <= decimal(d),
    decreases d.len(),
{
    if k < d.len() {
        let p = d.drop_last();
        assert(all_digits(p)) by {
            assert forall|i: int| 0 <= i < p.len() implies is_digit(#[trigger] p[i]) by {
                assert(p[i] == d[i]);
            }
        }
        lemma_decimal_prefix(p, k);
        assert(p.subrange(0, k) =~= d.subrange(0, k));
        assert(is_digit(d[d.len() - 1]));
    } else {
        assert(d.subrange(0, k) =~= d);
    }
}

/// The characters `from..to` of `s` read as a byte literal.
fn parse_byte(s: &str, from: usize, to: usize) -> (r: Option<u8>)
    requires
        from <= to <= s@.len(),
    ensures
        r == byte_value(s@.subrange(from as int, to as int)),
{
    let ghost t = s@.subrange(from as int, to as int);
    let mut i: usize = from;
    if from < to && s.get_char(from) == '+' {
        i = from + 1;
    }
    let ghost d = s@.subrange(i as int, to as int);
    assert(d =~= (if t.len() > 0 && t[0] == '+' { t.drop_first() } else { t }));
    if i == to {
        return None;
    }
    let mut v: u32 = 0;
    let mut j: usize = i;
    while j < to
        invariant
            from <= i < to <= s@.len(),
            i <= j <= to,
            d == s@.subrange(i as int, to as int),
            t == s@.subrange(from as int, to as int),
            d == (if t.len() > 0 && t[0] == '+' { t.drop_first() } else { t }),
            all_digits(s@.subrange(i as int, j as int)),
            v == decimal(s@.subrange(i as int, j as int)),
            v <= 255,
        decreases to - j,
    {
        let c = s.get_char(j);
        let ghost pre = s@.subrange(i as int, j as int);
        let ghost pre2 = s@.subrange(i as int, j + 1);
        assert(pre2.drop_last() =~= pre);
        assert(pre2.last() == c);
        if !('0' <= c && c <= '9') {
            assert(d[j - i] == c);
            assert(!all_digits(d));
            return None;
        }
        assert(all_digits(pre2)) by {
            assert forall|k: int| 0 <= k < pre2.len() implies is_digit(#[trigger] pre2[k]) by {
                if k < pre.len() {
                    assert(pre2[k] == pre[k]);
                }
            }
        }
        v = v * 10 + ((c as u32) - ('0' as u32));
        if v > 255 {
            proof {
                if all_digits(d) {
                    lemma_decimal_prefix(d, j + 1 - i);
                    assert(d.subrange(0, j + 1 - i) =~= pre2);
                }
            }
            return None;
        }
        j = j + 1;
    }
    assert(s@.subrange(i as int, j as int) =~= d);
    Some(v as u8)
}

/// The value of the line `start..end` of `s`.
fn line_value_exec(s: &str, start: usize, end: usize) -> (r: Option<u8>)
    requires
        start <= end <= s@.len(),
    ensures
        r == line_value(s@.subrange(start as int, end as int)),
{
    let mut count: usize = 0;
    let mut t0s: usize = start;
    let mut t0e: usize = start;
    let mut t1s: usize = start;
    let mut t1e: usize = start;
    let mut prev_ws = true;
    let mut j: usize = start;
    while j < end
        invariant
            start <= j <= end <= s@.len(),
            count <= j - start,
            words(s@.subrange(start as int, j as int)).len() == count,
            count >= 1 ==> start <= t0s <= t0e <= j && words(s@.subrange(start as int, j as int))[0]
                == s@.subrange(t0s as int, t0e as int),
            count >= 2 ==> start <= t1s <= t1e <= j && words(s@.subrange(start as int, j as int))[1]
                == s@.subrange(t1s as int, t1e as int),
            prev_ws == (j == start || is_ascii_ws(s@[j - 1])),
            !prev_ws ==> count >= 1 && (count == 1 ==> t0e == j) && (count == 2 ==> t1e == j),
        decreases end - j,
    {
        let c = s.get_char(j);
        let ws = is_ws(c);
        let ghost pre = s@.subrange(start as int, j as int);
        let ghost pre2 = s@.subrange(start as int, j + 1);
        let ghost p = words(pre);
        assert(pre2.drop_last() =~= pre);
        assert(pre2.last() == c);
        assert(j > start ==> pre2[pre2.len() - 2] == s@[j - 1]);
        if ws {
        } else if !prev_ws {
            if count == 1 {
                assert(s@.subrange(t0s as int, j + 1) =~= s@.subrange(t0s as int, j as int).push(c));
                t0e = j + 1;
            } else if count == 2 {
                assert(s@.subrange(t1s as int, j + 1) =~= s@.subrange(t1s as int, j as int).push(c));
                t1e = j + 1;
            }
        } else {
            if count == 0 {
                t0s = j;
                t0e = j + 1;
                assert(s@.subrange(j as int, j + 1) =~= seq![c]);
            } else if count == 1 {
                t1s = j;
                t1e = j + 1;
                assert(s@.subrange(j as int, j + 1) =~= seq![c]);
            }
            count = count + 1;
        }
        prev_ws = ws;
        j = j + 1;
    }
    if count == 0 {
        Some(0)
    } else if count == 1 {
        match parse_byte(s, t0s, t0e) {
            Some(v) => Some(v),
            None => {
                if word_is3(s, t0s, t0e, 'O', 'U', 'T') {
                    let op: u8 = OUT;
                    assert(op << 4u8 == op * 16) by (bit_vector)
                        requires
                            op < 16,
                    ;
                    Some(op << 4)
                } else if word_is3(s, t0s, t0e, 'H', 'L', 'T') {
                    let op: u8 = HALT;
                    assert(op << 4u8 == op * 16) by (bit_vector)
                        requires
                            op < 16,
                    ;
                    Some(op << 4)
                } else {
                    None
                }
            },
        }
    } else if count == 2 {
        let opcode = mnemonic(s, t0s, t0e);
        let value = parse_byte(s, t1s, t1e);
        match (opcode, value) {
            (Some(op), Some(v)) => {
                assert(op << 4u8 == op * 16) by (bit_vector)
                    requires
                        op < 16,
                ;
                Some((op << 4) | v)
            },
            _ => None,
        }
    } else {
        None
    }
}

/// Characters before the first line feed at or after `start` set the line's length.
proof fn lemma_line_len(s: Seq<char>, k: int)
    requires
        0 <= k <= s.len(),
        forall|i: int| 0 <= i < k ==> s[i] != '\n',
        k == s.len() || s[k] == '\n',
    ensures
        line_len(s) == k,
    decreases k,
{
    if k > 0 {
        let t = s.drop_first();
        assert forall|i: int| 0 <= i < k - 1 implies t[i] != '\n' by {
            assert(t[i] == s[i + 1]);
        }
        lemma_line_len(t, k - 1);
    }
}

/// End of the line that starts at `start`: the next line feed, or the end of `s`.
fn line_end(s: &str, start: usize, n: usize) -> (end: usize)
    requires
        n == s@.len(),
        start <= n,
    ensures
        start <= end <= n,
        line_len(s@.subrange(start as int, n as int)) == end - start,
        end < n ==> s@[end as int] == '\n',
{
    let mut j: usize = start;
    while j < n && s.get_char(j) != '\n'
        invariant
            n == s@.len(),
            start <= j <= n,
            forall|i: int| start <= i < j ==> s@[i] != '\n',
        decreases n - j,
    {
        j = j + 1;
    }
    proof {
        let t = s@.subrange(start as int, n as int);
        assert forall|i: int| 0 <= i < j - start implies t[i] != '\n' by {
            assert(t[i] == s@[start + i]);
        }
        lemma_line_len(t, j - start);
    }
    j
}

/// Assembles the program text `code` into a memory image, or `None` if one
/// of its first 16 lines is invalid.
pub fn assemble_image(code: &str) -> (r: Option<[u8; 16]>)
    ensures
        r is Some <==> program_image(code@) is Some,
        r is Some ==> r->0@ == program_image(code@)->0,
{
    let n = code.unicode_len();
    let mut img = [0u8; 16];
    let mut line: usize = 0;
    let mut pos: usize = 0;
    let ghost mut done: Seq<Seq<char>> = seq![];
    assert(code@.subrange(0, n as int) =~= code@);
    while line < 16 && pos < n
        invariant
            n == code@.len(),
            pos <= n,
            line <= 16,
            done.len() == line,
            lines(code@) == done + lines(code@.subrange(pos as int, n as int)),
            img@.len() == 16,
            forall|i: int| 0 <= i < line ==> line_value(#[trigger] done[i]) is Some,
            forall|i: int| 0 <= i < line ==> img@[i] == line_value(#[trigger] done[i])->0,
            forall|i: int| line <= i < 16 ==> img@[i] == 0,
        decreases n - pos,
    {
        let end = line_end(code, pos, n);
        let v = line_value_exec(code, pos, end);
        let ghost t = code@.subrange(pos as int, n as int);
        let ghost cur = code@.subrange(pos as int, end as int);
        let next: usize = if end < n { end + 1 } else { n };
        proof {
            assert(t.subrange(0, end - pos) =~= cur);
            if end < n {
                assert(t.subrange(end - pos + 1, t.len() as int) =~= code@.subrange(next as int, n as int));
            } else {
                assert(t =~= cur);
                assert(code@.subrange(next as int, n as int).len() == 0);
            }
            assert(lines(t) =~= seq![cur] + lines(code@.subrange(next as int, n as int)));
            assert(lines(code@) =~= done.push(cur) + lines(code@.subrange(next as int, n as int)));
            assert(lines(code@)[line as int] == cur);
        }
        match v {
            Some(x) => {
                img[line] = x;
            },
            None => {
                assert(lines_read(code@) > line);
                return None;
            },
        }
        proof {
            done = done.push(cur);
        }
        line = line + 1;
        pos = next;
    }
    proof {
        let ls = lines(code@);
        if pos == n {
            assert(code@.subrange(pos as int, n as int).len() == 0);
            assert(ls =~= done);
        }
        assert(lines_read(code@) == line);
        assert forall|i: int| 0 <= i < line implies ls[i] == done[i] by {
            assert(ls[i] == (done + lines(code@.subrange(pos as int, n as int)))[i]);
        }
        assert(img@ =~= program_image(code@)->0);
    }
    Some(img)
}

} // verus!
