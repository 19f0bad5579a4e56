//! A printable rendering of raw bytes, byte by byte in the style of
//! `std::ascii::escape_default`: tab, carriage return and line feed become
//! `\t`, `\r` and `\n`; a single quote, a double quote and a backslash get a
//! backslash in front; other bytes from 0x20 to 0x7e stand as themselves;
//! every other byte becomes `\x` and two lowercase hexadecimal digits.

use vstd::prelude::*;

verus! {

/// The lowercase hexadecimal digit of `n` (below 16).
pub open spec fn hex_digit(n: u8) -> char {
    if n < 10 {
        (n + 48) as char
    } else {
        (n + 87) as char
    }
}

/// The characters that stand for the byte `b`.
pub open spec fn escaped_byte(b: u8) -> Seq<char> {
    if b == 0x09 {
        seq!['\\', 't']
    } else if b == 0x0d {
        seq!['\\', 'r']
    } else if b == 0x0a {
        seq!['\\', 'n']
    } else if b == 0x27 {
        seq!['\\', '\'']
    } else if b == 0x22 {
        seq!['\\', '"']
    } else if b == 0x5c {
        seq!['\\', '\\']
    } else if 0x20 <= b <= 0x7e {
        seq![b as char]
    } else {
        seq!['\\', 'x', hex_digit(b / 16), hex_digit(b % 16)]
    }
}

/// The characters that stand for the bytes `bs`, in order.
pub open spec fn escaped(bs: Seq<u8>) -> Seq<char>
    decreases bs.len(),
{
    if bs.len() == 0 {
        Seq::empty()
    } else {
        escaped(bs.drop_last()) + escaped_byte(bs.last())
    }
}

/// Rendering a concatenation renders each part in turn.
pub proof fn lemma_escaped_concat(a: Seq<u8>, b: Seq<u8>)
    ensures
        escaped(a + b) == escaped(a) + escaped(b),
    decreases b.len(),
{
    if b.len() == 0 {
        assert(a + b == a);
    } else {
        lemma_escaped_concat(a, b.drop_last());
        assert((a + b).drop_last() == a + b.drop_last());
        assert((a + b).last() == b.last());
    }
}

/// Every rendered character is printable ASCII (0x20 to 0x7e).
pub proof fn lemma_escaped_printable(bs: Seq<u8>)
    ensures
        forall|i: int| 0 <= i < escaped(bs).len() ==> 0x20 <= #[trigger] (escaped(bs)[i] as int) <= 0x7e,
    decreases bs.len(),
{
    if bs.len() > 0 {
        let prev = escaped(bs.drop_last());
        lemma_escaped_printable(bs.drop_last());
        let e = escaped_byte(bs.last());
        assert forall|i: int| 0 <= i < escaped(bs).len() implies 0x20 <= #[trigger] (escaped(bs)[i] as int) <= 0x7e by {
            if i < prev.len() {
                assert(escaped(bs)[i] == prev[i]);
            } else {
                assert(escaped(bs)[i] == e[i - prev.len()]);
            }
        }
    }
}

proof fn lemma_escaped_byte_shape(b: u8)
    ensures
        1 <= escaped_byte(b).len() <= 4,
        escaped_byte(b)[0] != '\\' ==> escaped_byte(b).len() == 1 && 0x20 <= b <= 0x7e
            && escaped_byte(b)[0] == b as char,
        escaped_byte(b)[0] == '\\' ==> escaped_byte(b).len() >= 2,
{
}

proof fn lemma_hex_digit_injective(m: u8, n: u8)
    requires
        m < 16,
        n < 16,
        hex_digit(m) == hex_digit(n),
    ensures
        m == n,
{
    assert(hex_digit(m) as u32 == hex_digit(n) as u32);
}

/// No rendering of a byte is a prefix of the rendering of another byte.
proof fn lemma_escaped_byte_prefix_free(x: u8, y: u8, s1: Seq<char>, s2: Seq<char>)
    requires
        escaped_byte(x) + s1 == escaped_byte(y) + s2,
    ensures
        x == y,
{
    let ex = escaped_byte(x);
    let ey = escaped_byte(y);
    let w = ex + s1;
    lemma_escaped_byte_shape(x);
    lemma_escaped_byte_shape(y);
    assert(w[0] == ex[0]);
    assert(w[0] == ey[0]);
    if ex[0] != '\\' {
        assert((x as char) as u32 == (y as char) as u32);
    } else {
        assert(w[1] == ex[1]);
        assert(w[1] == ey[1]);
        if ex[1] == 'x' {
            assert(w[2] == ex[2] && w[2] == ey[2]);
            assert(w[3] == ex[3] && w[3] == ey[3]);
            lemma_hex_digit_injective(x / 16, y / 16);
            lemma_hex_digit_injective(x % 16, y % 16);
        }
    }
}

proof fn lemma_escaped_front(bs: Seq<u8>)
    requires
        bs.len() > 0,
    ensures
        escaped(bs) == escaped_byte(bs[0]) + escaped(bs.drop_first()),
{
    lemma_escaped_concat(seq![bs[0]], bs.drop_first());
    assert(seq![bs[0]] + bs.drop_first() == bs);
    assert(seq![bs[0]].drop_last() == Seq::<u8>::empty());
    assert(escaped(Seq::<u8>::empty()) == Seq::<char>::empty());
    assert(Seq::<char>::empty() + escaped_byte(bs[0]) == escaped_byte(bs[0]));
    assert(escaped(seq![bs[0]]) == escaped_byte(bs[0]));
}

/// The rendering is unambiguous: two byte strings that render to the same
/// text are equal.
pub proof fn lemma_escaped_injective(a: Seq<u8>, b: Seq<u8>)
    requires
        escaped(a) == escaped(b),
    ensures
        a == b,
    decreases a.len(),
{
    if a.len() == 0 {
        if b.len() > 0 {
            lemma_escaped_front(b);
            lemma_escaped_byte_shape(b[0]);
        }
        assert(a == b);
    } else {
        if b.len() == 0 {
            lemma_escaped_front(a);
            lemma_escaped_byte_shape(a[0]);
        }
        lemma_escaped_front(a);
        lemma_escaped_front(b);
        lemma_escaped_byte_prefix_free(a[0], b[0], escaped(a.drop_first()), escaped(b.drop_first()));
        let e = escaped_byte(a[0]);
        assert(escaped(a.drop_first()) == escaped(a).skip(e.len() as int));
        assert(escaped(b.drop_first()) == escaped(b).skip(e.len() as int));
        lemma_escaped_injective(a.drop_first(), b.drop_first());
        assert(a == seq![a[0]] + a.drop_first());
        assert(b == seq![b[0]] + b.drop_first());
    }
}

/// `std::string::String::push`: appends one character.
#[verifier::external_body]
fn push_char(s: &mut String, c: char)
    ensures
        final(s)@ == old(s)@.push(c),
{
    s.push(c);
}

fn hex_digit_exec(n: u8) -> (c: char)
    requires
        n < 16,
    ensures
        c == hex_digit(n),
{
    if n < 10 {
        (n + 48) as char
    } else {
        (n + 87) as char
    }
}

fn push_escaped_byte(s: &mut String, b: u8)
    ensures
        final(s)@ == old(s)@ + escaped_byte(b),
{
    if b == 0x09 {
        push_char(s, '\\');
        push_char(s, 't');
    } else if b == 0x0d {
        push_char(s, '\\');
        push_char(s, 'r');
    } else if b == 0x0a {
        push_char(s, '\\');
        push_char(s, 'n');
    } else if b == 0x27 {
        push_char(s, '\\');
        push_char(s, '\'');
    } else if b == 0x22 {
        push_char(s, '\\');
        push_char(s, '"');
    } else if b == 0x5c {
        push_char(s, '\\');
        push_char(s, '\\');
    } else if 0x20 <= b && b <= 0x7e {
        push_char(s, b as char);
    } else {
        push_char(s, '\\');
        push_char(s, 'x');
        push_char(s, hex_digit_exec(b / 16));
        push_char(s, hex_digit_exec(b % 16));
    }
}

/// Renders `bs` as printable text, each byte as `escaped_byte` says.
pub fn debug_bytes(bs: &[u8]) -> (visible: String)
    ensures
        visible@ == escaped(bs@),
{
    let mut visible = String::new();
    let mut i: usize = 0;
    while i < bs.len()
        invariant
            i <= bs.len(),
            visible@ == escaped(bs@.take(i as int)),
        decreases bs.len() - i,
    {
        let ghost before = bs@.take(i as int);
        push_escaped_byte(&mut visible, bs[i]);
        i = i + 1;
        assert(bs@.take(i as int).drop_last() == before);
    }
    assert(bs@.take(bs.len() as int) == bs@);
    visible
}

} // verus!
