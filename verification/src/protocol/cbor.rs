//! The items of the wire format. Each item begins with a head: a byte that
//! holds the major type of the item in its upper three bits, and a number,
//! the argument, that follows in the shortest of five big-endian forms.

use vstd::prelude::*;

verus! {

/// Major type of an unsigned integer; the argument is the integer.
pub const MAJOR_UINT: u8 = 0;

/// Major type of a text string; the argument is its length in bytes.
pub const MAJOR_TEXT: u8 = 3;

/// Major type of an array; the argument is the number of its items.
pub const MAJOR_ARRAY: u8 = 4;

/// Major type of a map; the argument is the number of its entries.
pub const MAJOR_MAP: u8 = 5;

/// Major type of the simple values, among them `false` and `true`.
pub const MAJOR_SIMPLE: u8 = 7;

/// The argument of the simple value `false`.
pub const SIMPLE_FALSE: u64 = 20;

/// The argument of the simple value `true`.
pub const SIMPLE_TRUE: u64 = 21;

/// The bytes of `piece` stand in `s` from position `at` on.
pub open spec fn holds_at(s: Seq<u8>, at: int, piece: Seq<u8>) -> bool {
    &&& 0 <= at
    &&& at + piece.len() <= s.len()
    &&& s.subrange(at, at + piece.len()) == piece
}

/// The `width` low-order bytes of `n`, the most significant first.
pub open spec fn be_bytes(n: nat, width: nat) -> Seq<u8>
    decreases width,
{
    if width == 0 {
        Seq::empty()
    } else {
        be_bytes(n / 0x100, (width - 1) as nat).push((n % 0x100) as u8)
    }
}

/// The number that the bytes spell, the most significant first.
pub open spec fn be_value(bytes: Seq<u8>) -> nat
    decreases bytes.len(),
{
    if bytes.len() == 0 {
        0
    } else {
        be_value(bytes.drop_last()) * 0x100 + bytes.last() as nat
    }
}

/// `n` can be written in `width` bytes.
pub open spec fn fits(n: nat, width: nat) -> bool
    decreases width,
{
    if width == 0 {
        n == 0
    } else {
        fits(n / 0x100, (width - 1) as nat)
    }
}

/// The number of bytes in which an argument follows the first byte of its
/// head.
pub open spec fn arg_width(n: u64) -> nat {
    if n < 24 {
        0
    } else if n < 0x100 {
        1
    } else if n < 0x1_0000 {
        2
    } else if n < 0x1_0000_0000 {
        4
    } else {
        8
    }
}

/// The lower five bits of the first byte of a head: a small argument itself,
/// or the mark of the width in which the argument follows.
pub open spec fn arg_info(n: u64) -> u8 {
    if n < 24 {
        n as u8
    } else if n < 0x100 {
        24
    } else if n < 0x1_0000 {
        25
    } else if n < 0x1_0000_0000 {
        26
    } else {
        27
    }
}

/// The width that the lower five bits of a first byte announce, if they
/// announce one.
pub open spec fn info_width(info: u8) -> Option<nat> {
    if info < 24 {
        Some(0)
    } else if info == 24 {
        Some(1)
    } else if info == 25 {
        Some(2)
    } else if info == 26 {
        Some(4)
    } else if info == 27 {
        Some(8)
    } else {
        None
    }
}

/// The head of an item with the given major type and argument.
pub open spec fn head(major: u8, n: u64) -> Seq<u8> {
    seq![(major * 32 + arg_info(n)) as u8] + be_bytes(n as nat, arg_width(n))
}

/// Reads a head at position `at`: the major type, the argument and the
/// position after the head. An argument is read only in its shortest form.
pub open spec fn parse_head_at(s: Seq<u8>, at: int) -> Option<(u8, u64, int)> {
    if !(0 <= at < s.len()) {
        None
    } else {
        match info_width(s[at] % 32) {
            None => None,
            Some(width) => if width == 0 {
                Some((s[at] / 32, (s[at] % 32) as u64, at + 1))
            } else if at + 1 + width <= s.len() {
                let n = be_value(s.subrange(at + 1, at + 1 + width));
                if n <= u64::MAX && arg_width(n as u64) == width {
                    Some((s[at] / 32, n as u64, at + 1 + width))
                } else {
                    None
                }
            } else {
                None
            },
        }
    }
}

/// A number is written in as many bytes as asked for.
pub proof fn lemma_be_bytes_len(n: nat, width: nat)
    ensures
        be_bytes(n, width).len() == width,
    decreases width,
{
    if width > 0 {
        lemma_be_bytes_len(n / 0x100, (width - 1) as nat);
    }
}

/// Writing a number that fits and reading it back gives the number.
pub proof fn lemma_be_value_of_bytes(n: nat, width: nat)
    requires
        fits(n, width),
    ensures
        be_value(be_bytes(n, width)) == n,
    decreases width,
{
    if width > 0 {
        lemma_be_value_of_bytes(n / 0x100, (width - 1) as nat);
        assert(be_bytes(n, width).drop_last() =~= be_bytes(n / 0x100, (width - 1) as nat));
    }
}

/// Reading bytes and writing the number back gives the bytes.
pub proof fn lemma_be_bytes_of_value(bytes: Seq<u8>)
    ensures
        fits(be_value(bytes), bytes.len()),
        be_bytes(be_value(bytes), bytes.len()) == bytes,
    decreases bytes.len(),
{
    if bytes.len() > 0 {
        lemma_be_bytes_of_value(bytes.drop_last());
        let n = be_value(bytes);
        assert(n / 0x100 == be_value(bytes.drop_last()));
        assert(n % 0x100 == bytes.last());
        assert(be_bytes(n, bytes.len()) =~= bytes);
    }
}

/// What fits in one, two, four and eight bytes.
pub proof fn lemma_fits(n: nat)
    ensures
        fits(n, 1) <==> n < 0x100,
        fits(n, 2) <==> n < 0x1_0000,
        fits(n, 4) <==> n < 0x1_0000_0000,
        fits(n, 8) <==> n < 0x1_0000_0000_0000_0000,
{
    reveal_with_fuel(fits, 3);
    let n1 = n / 0x100;
    let n2 = n1 / 0x100;
    let n3 = n2 / 0x100;
    let n4 = n3 / 0x100;
    let n5 = n4 / 0x100;
    let n6 = n5 / 0x100;
    let n7 = n6 / 0x100;
    assert(fits(n, 4) <==> fits(n2, 2));
    assert(fits(n2, 2) <==> n2 < 0x1_0000);
    assert(n2 < 0x1_0000 <==> n1 < 0x100_0000);
    assert(n1 < 0x100_0000 <==> n < 0x1_0000_0000);
    assert(fits(n, 8) <==> fits(n2, 6));
    assert(fits(n2, 6) <==> fits(n4, 4));
    assert(fits(n4, 4) <==> fits(n6, 2));
    assert(fits(n6, 2) <==> n6 < 0x1_0000);
    assert(n6 < 0x1_0000 <==> n5 < 0x100_0000);
    assert(n5 < 0x100_0000 <==> n4 < 0x1_0000_0000);
    assert(n4 < 0x1_0000_0000 <==> n3 < 0x100_0000_0000);
    assert(n3 < 0x100_0000_0000 <==> n2 < 0x1_0000_0000_0000);
    assert(n2 < 0x1_0000_0000_0000 <==> n1 < 0x100_0000_0000_0000);
    assert(n1 < 0x100_0000_0000_0000 <==> n < 0x1_0000_0000_0000_0000);
}

/// The length of a head.
pub proof fn lemma_head_len(major: u8, n: u64)
    ensures
        head(major, n).len() == 1 + arg_width(n),
{
    lemma_be_bytes_len(n as nat, arg_width(n));
}

/// A head is read back where it stands.
pub proof fn lemma_parse_head(s: Seq<u8>, at: int, major: u8, n: u64)
    requires
        major < 8,
        holds_at(s, at, head(major, n)),
    ensures
        parse_head_at(s, at) == Some((major, n, at + head(major, n).len())),
{
    let h = head(major, n);
    let width = arg_width(n);
    lemma_head_len(major, n);
    lemma_fits(n as nat);
    if width > 0 {
        lemma_be_value_of_bytes(n as nat, width);
    }
    assert(s[at] == s.subrange(at, at + h.len())[0]);
    assert(s[at] == major * 32 + arg_info(n));
    assert(s[at] / 32 == major && s[at] % 32 == arg_info(n));
    assert(s.subrange(at + 1, at + 1 + width) =~= s.subrange(at, at + h.len()).subrange(
        1,
        1 + width as int,
    ));
    assert(h.subrange(1, 1 + width as int) =~= be_bytes(n as nat, width));
}

/// What is read as a head is a head.
pub proof fn lemma_parse_head_sound(s: Seq<u8>, at: int)
    ensures
        parse_head_at(s, at) matches Some((major, n, end)) ==> major < 8 && end == at + head(
            major,
            n,
        ).len() && holds_at(s, at, head(major, n)),
{
    if let Some((major, n, end)) = parse_head_at(s, at) {
        let width = info_width(s[at] % 32)->Some_0;
        lemma_head_len(major, n);
        assert(s[at] == major * 32 + s[at] % 32);
        if width == 0 {
            assert(be_bytes(n as nat, 0) =~= Seq::<u8>::empty());
            assert(s.subrange(at, end) =~= head(major, n));
        } else {
            let rest = s.subrange(at + 1, at + 1 + width);
            lemma_be_bytes_of_value(rest);
            assert(arg_info(n) == s[at] % 32);
            assert(s.subrange(at, end) =~= seq![s[at]] + rest);
        }
    }
}

/// The least number that `width` bytes cannot spell.
pub open spec fn be_limit(width: nat) -> nat
    decreases width,
{
    if width == 0 {
        1
    } else {
        0x100 * be_limit((width - 1) as nat)
    }
}

/// Bytes spell a number below the limit of their width.
pub proof fn lemma_be_value_bound(bytes: Seq<u8>)
    ensures
        be_value(bytes) < be_limit(bytes.len()),
    decreases bytes.len(),
{
    if bytes.len() > 0 {
        lemma_be_value_bound(bytes.drop_last());
    }
}

/// Appends the `width` low-order bytes of `n`, the most significant first.
fn write_be(out: &mut Vec<u8>, n: u64, width: u8)
    ensures
        final(out)@ == old(out)@ + be_bytes(n as nat, width as nat),
    decreases width,
{
    if width > 0 {
        write_be(out, n / 0x100, width - 1);
        out.push((n % 0x100) as u8);
        assert(out@ =~= old(out)@ + be_bytes(n as nat, width as nat));
    } else {
        assert(out@ =~= old(out)@ + be_bytes(n as nat, 0));
    }
}

/// Reads the number that `width` bytes from position `at` on spell.
fn read_be(bytes: &[u8], at: usize, width: usize) -> (n: u64)
    requires
        width <= 8,
        at + width <= bytes@.len(),
    ensures
        n == be_value(bytes@.subrange(at as int, at + width)),
{
    let total = bytes.len();
    let mut n: u64 = 0;
    let mut i: usize = 0;
    while i < width
        invariant
            i <= width <= 8,
            at + width <= total == bytes@.len(),
            n == be_value(bytes@.subrange(at as int, at + i)),
        decreases width - i,
    {
        proof {
            let read = bytes@.subrange(at as int, at + i);
            let more = bytes@.subrange(at as int, at + i + 1);
            lemma_be_value_bound(read);
            reveal_with_fuel(be_limit, 9);
            assert(be_limit(i as nat) <= 0x100_0000_0000_0000);
            assert(more.drop_last() =~= read);
            assert(more.last() == bytes@[at + i]);
        }
        n = n * 0x100 + bytes[at + i] as u64;
        i += 1;
    }
    n
}

/// Appends the head of an item with the given major type and argument.
pub fn write_head(out: &mut Vec<u8>, major: u8, n: u64)
    requires
        major < 8,
    ensures
        final(out)@ == old(out)@ + head(major, n),
{
    let first = major * 32;
    if n < 24 {
        out.push(first + n as u8);
        assert(be_bytes(n as nat, 0) =~= Seq::<u8>::empty());
    } else if n < 0x100 {
        out.push(first + 24);
        write_be(out, n, 1);
    } else if n < 0x1_0000 {
        out.push(first + 25);
        write_be(out, n, 2);
    } else if n < 0x1_0000_0000 {
        out.push(first + 26);
        write_be(out, n, 4);
    } else {
        out.push(first + 27);
        write_be(out, n, 8);
    }
    assert(out@ =~= old(out)@ + head(major, n));
}

/// Reads the head of an item at position `at`: its major type, its argument
/// and the position after the head. There is none if the input ends before
/// the head does, if the first byte announces no width (this leaves out the
/// items of indefinite length), or if the argument is not in its shortest
/// form.
pub fn read_head(bytes: &[u8], at: usize) -> (r: Option<(u8, u64, usize)>)
    ensures
        match r {
            Some((major, n, end)) => parse_head_at(bytes@, at as int) == Some(
                (major, n, end as int),
            ) && end <= bytes@.len(),
            None => parse_head_at(bytes@, at as int) is None,
        },
{
    if at >= bytes.len() {
        return None;
    }
    let major = bytes[at] / 32;
    let info = bytes[at] % 32;
    if info < 24 {
        return Some((major, info as u64, at + 1));
    }
    let width: usize = if info == 24 {
        1
    } else if info == 25 {
        2
    } else if info == 26 {
        4
    } else if info == 27 {
        8
    } else {
        return None;
    };
    if width > bytes.len() - at - 1 {
        return None;
    }
    let n = read_be(bytes, at + 1, width);
    let shortest = if n < 24 {
        false
    } else if n < 0x100 {
        width == 1
    } else if n < 0x1_0000 {
        width == 2
    } else if n < 0x1_0000_0000 {
        width == 4
    } else {
        width == 8
    };
    if shortest {
        Some((major, n, at + 1 + width))
    } else {
        None
    }
}

} // verus!
