//! What it means for a value to have a wire form: how it is written, and how
//! it is read back from a position in a byte sequence.

use crate::protocol::cbor::{
    head, holds_at, lemma_parse_head, lemma_parse_head_sound, parse_head_at,
    MAJOR_ARRAY, MAJOR_MAP, MAJOR_SIMPLE, MAJOR_TEXT, MAJOR_UINT, SIMPLE_FALSE, SIMPLE_TRUE,
};
use vstd::prelude::*;
use vstd::utf8::{decode_utf8, encode_utf8, valid_utf8};

verus! {

/// A value with a wire form.
pub trait Wire: Sized {
    /// The value can be written: its lengths fit the format.
    spec fn wf(self) -> bool;

    /// The wire form of the value.
    spec fn enc(self) -> Seq<u8>;

    /// Reads a value at position `at`: the value and the position after it.
    spec fn parse_at(s: Seq<u8>, at: int) -> Option<(Self, int)>;

    /// A value is read back where its wire form stands.
    proof fn lemma_parse_enc(self, s: Seq<u8>, at: int)
        requires
            self.wf(),
            holds_at(s, at, self.enc()),
        ensures
            Self::parse_at(s, at) == Some((self, at + self.enc().len()));

    /// Where a value is read, its wire form stands.
    proof fn lemma_parse_sound(s: Seq<u8>, at: int)
        ensures
            Self::parse_at(s, at) matches Some((value, end)) ==> value.wf() && holds_at(
                s,
                at,
                value.enc(),
            ) && end == at + value.enc().len();
}

/// A sequence that holds two pieces one after the other holds each of them.
pub proof fn lemma_holds_split(s: Seq<u8>, at: int, first: Seq<u8>, second: Seq<u8>)
    ensures
        holds_at(s, at, first + second) <==> holds_at(s, at, first) && holds_at(
            s,
            at + first.len(),
            second,
        ),
{
    let both = first + second;
    if holds_at(s, at, both) {
        assert(s.subrange(at, at + first.len()) =~= both.subrange(0, first.len() as int));
        assert(both.subrange(0, first.len() as int) =~= first);
        assert(s.subrange(at + first.len(), at + first.len() + second.len()) =~= both.subrange(
            first.len() as int,
            both.len() as int,
        ));
        assert(both.subrange(first.len() as int, both.len() as int) =~= second);
    }
    if holds_at(s, at, first) && holds_at(s, at + first.len(), second) {
        assert(s.subrange(at, at + both.len()) =~= s.subrange(at, at + first.len())
            + s.subrange(at + first.len(), at + first.len() + second.len()));
    }
}

/// Reads an unsigned integer of at most `max` at position `at`.
pub open spec fn parse_uint_at(s: Seq<u8>, at: int, max: u64) -> Option<(u64, int)> {
    match parse_head_at(s, at) {
        Some((major, n, end)) => if major == MAJOR_UINT && n <= max {
            Some((n, end))
        } else {
            None
        },
        None => None,
    }
}

impl Wire for u64 {
    open spec fn wf(self) -> bool {
        true
    }

    open spec fn enc(self) -> Seq<u8> {
        head(MAJOR_UINT, self)
    }

    open spec fn parse_at(s: Seq<u8>, at: int) -> Option<(u64, int)> {
        parse_uint_at(s, at, u64::MAX)
    }

    proof fn lemma_parse_enc(self, s: Seq<u8>, at: int) {
        lemma_parse_head(s, at, MAJOR_UINT, self);
    }

    proof fn lemma_parse_sound(s: Seq<u8>, at: int) {
        lemma_parse_head_sound(s, at);
    }
}

impl Wire for u32 {
    open spec fn wf(self) -> bool {
        true
    }

    open spec fn enc(self) -> Seq<u8> {
        head(MAJOR_UINT, self as u64)
    }

    open spec fn parse_at(s: Seq<u8>, at: int) -> Option<(u32, int)> {
        match parse_uint_at(s, at, u32::MAX as u64) {
            Some((n, end)) => Some((n as u32, end)),
            None => None,
        }
    }

    proof fn lemma_parse_enc(self, s: Seq<u8>, at: int) {
        lemma_parse_head(s, at, MAJOR_UINT, self as u64);
    }

    proof fn lemma_parse_sound(s: Seq<u8>, at: int) {
        lemma_parse_head_sound(s, at);
    }
}

impl Wire for u8 {
    open spec fn wf(self) -> bool {
        true
    }

    open spec fn enc(self) -> Seq<u8> {
        head(MAJOR_UINT, self as u64)
    }

    open spec fn parse_at(s: Seq<u8>, at: int) -> Option<(u8, int)> {
        match parse_uint_at(s, at, u8::MAX as u64) {
            Some((n, end)) => Some((n as u8, end)),
            None => None,
        }
    }

    proof fn lemma_parse_enc(self, s: Seq<u8>, at: int) {
        lemma_parse_head(s, at, MAJOR_UINT, self as u64);
    }

    proof fn lemma_parse_sound(s: Seq<u8>, at: int) {
        lemma_parse_head_sound(s, at);
    }
}

impl Wire for bool {
    open spec fn wf(self) -> bool {
        true
    }

    open spec fn enc(self) -> Seq<u8> {
        head(
            MAJOR_SIMPLE,
            if self {
                SIMPLE_TRUE
            } else {
                SIMPLE_FALSE
            },
        )
    }

    open spec fn parse_at(s: Seq<u8>, at: int) -> Option<(bool, int)> {
        match parse_head_at(s, at) {
            Some((major, n, end)) => if major == MAJOR_SIMPLE && (n == SIMPLE_FALSE || n
                == SIMPLE_TRUE) {
                Some((n == SIMPLE_TRUE, end))
            } else {
                None
            },
            None => None,
        }
    }

    proof fn lemma_parse_enc(self, s: Seq<u8>, at: int) {
        lemma_parse_head(
            s,
            at,
            MAJOR_SIMPLE,
            if self {
                SIMPLE_TRUE
            } else {
                SIMPLE_FALSE
            },
        );
    }

    proof fn lemma_parse_sound(s: Seq<u8>, at: int) {
        lemma_parse_head_sound(s, at);
    }
}

/// A text, as the sequence of its characters.
pub struct Text(pub Seq<char>);

impl Wire for Text {
    open spec fn wf(self) -> bool {
        encode_utf8(self.0).len() <= u64::MAX
    }

    open spec fn enc(self) -> Seq<u8> {
        head(MAJOR_TEXT, encode_utf8(self.0).len() as u64) + encode_utf8(self.0)
    }

    open spec fn parse_at(s: Seq<u8>, at: int) -> Option<(Text, int)> {
        match parse_head_at(s, at) {
            Some((major, n, start)) => if major == MAJOR_TEXT && start + n <= s.len()
                && valid_utf8(s.subrange(start, start + n)) {
                Some((Text(decode_utf8(s.subrange(start, start + n))), start + n))
            } else {
                None
            },
            None => None,
        }
    }

    proof fn lemma_parse_enc(self, s: Seq<u8>, at: int) {
        let utf8 = encode_utf8(self.0);
        let first = head(MAJOR_TEXT, utf8.len() as u64);
        lemma_holds_split(s, at, first, utf8);
        lemma_parse_head(s, at, MAJOR_TEXT, utf8.len() as u64);
        vstd::utf8::encode_utf8_valid_utf8(self.0);
        vstd::utf8::encode_utf8_decode_utf8(self.0);
    }

    proof fn lemma_parse_sound(s: Seq<u8>, at: int) {
        lemma_parse_head_sound(s, at);
        if let Some((text, end)) = Self::parse_at(s, at) {
            let (major, n, start) = parse_head_at(s, at)->Some_0;
            let utf8 = s.subrange(start, start + n);
            vstd::utf8::decode_utf8_encode_utf8(utf8);
            lemma_holds_split(s, at, head(MAJOR_TEXT, n), utf8);
        }
    }
}

/// Whether the text `name` stands at position `at`, and if so, the position
/// after it.
pub open spec fn key_at(s: Seq<u8>, at: int, name: Seq<char>) -> Option<int> {
    if holds_at(s, at, Text(name).enc()) {
        Some(at + Text(name).enc().len())
    } else {
        None
    }
}

/// Every item can be written.
pub open spec fn items_wf<T: Wire>(items: Seq<T>) -> bool {
    forall|i: int| 0 <= i < items.len() ==> (#[trigger] items[i]).wf()
}

/// The wire forms of the items, one after the other.
pub open spec fn enc_items<T: Wire>(items: Seq<T>) -> Seq<u8>
    decreases items.len(),
{
    if items.len() == 0 {
        Seq::empty()
    } else {
        enc_items(items.drop_last()) + items.last().enc()
    }
}

/// Reads `n` items one after the other, from position `at` on.
pub open spec fn parse_items_at<T: Wire>(s: Seq<u8>, at: int, n: nat) -> Option<(Seq<T>, int)>
    decreases n,
{
    if n == 0 {
        Some((Seq::empty(), at))
    } else {
        match parse_items_at::<T>(s, at, (n - 1) as nat) {
            Some((items, end)) => match T::parse_at(s, end) {
                Some((item, after)) => Some((items.push(item), after)),
                None => None,
            },
            None => None,
        }
    }
}

/// Items are read back where their wire forms stand.
pub proof fn lemma_parse_items<T: Wire>(items: Seq<T>, s: Seq<u8>, at: int)
    requires
        items_wf(items),
        holds_at(s, at, enc_items(items)),
    ensures
        parse_items_at::<T>(s, at, items.len()) == Some((items, at + enc_items(items).len())),
    decreases items.len(),
{
    if items.len() > 0 {
        let earlier = items.drop_last();
        lemma_holds_split(s, at, enc_items(earlier), items.last().enc());
        lemma_parse_items(earlier, s, at);
        items.last().lemma_parse_enc(s, at + enc_items(earlier).len());
        assert(earlier.push(items.last()) =~= items);
    }
}

/// Where items are read, their wire forms stand.
pub proof fn lemma_parse_items_sound<T: Wire>(s: Seq<u8>, at: int, n: nat)
    requires
        0 <= at <= s.len(),
    ensures
        parse_items_at::<T>(s, at, n) matches Some((items, end)) ==> items.len() == n
            && items_wf(items) && holds_at(s, at, enc_items(items)) && end == at + enc_items(
            items,
        ).len(),
    decreases n,
{
    if n == 0 {
        assert(s.subrange(at, at) =~= Seq::<u8>::empty());
    } else {
        lemma_parse_items_sound::<T>(s, at, (n - 1) as nat);
        if let Some((items, end)) = parse_items_at::<T>(s, at, n) {
            let (earlier, middle) = parse_items_at::<T>(s, at, (n - 1) as nat)->Some_0;
            T::lemma_parse_sound(s, middle);
            assert(items.drop_last() =~= earlier);
            lemma_holds_split(s, at, enc_items(earlier), items.last().enc());
        }
    }
}

/// An array of items.
pub struct Array<T>(pub Seq<T>);

impl<T: Wire> Wire for Array<T> {
    open spec fn wf(self) -> bool {
        self.0.len() <= u64::MAX && items_wf(self.0)
    }

    open spec fn enc(self) -> Seq<u8> {
        head(MAJOR_ARRAY, self.0.len() as u64) + enc_items(self.0)
    }

    open spec fn parse_at(s: Seq<u8>, at: int) -> Option<(Array<T>, int)> {
        match parse_head_at(s, at) {
            Some((major, n, start)) => if major == MAJOR_ARRAY {
                match parse_items_at::<T>(s, start, n as nat) {
                    Some((items, end)) => Some((Array(items), end)),
                    None => None,
                }
            } else {
                None
            },
            None => None,
        }
    }

    proof fn lemma_parse_enc(self, s: Seq<u8>, at: int) {
        let first = head(MAJOR_ARRAY, self.0.len() as u64);
        lemma_holds_split(s, at, first, enc_items(self.0));
        lemma_parse_head(s, at, MAJOR_ARRAY, self.0.len() as u64);
        lemma_parse_items(self.0, s, at + first.len());
    }

    proof fn lemma_parse_sound(s: Seq<u8>, at: int) {
        lemma_parse_head_sound(s, at);
        if let Some((array, end)) = Self::parse_at(s, at) {
            let (major, n, start) = parse_head_at(s, at)->Some_0;
            lemma_parse_items_sound::<T>(s, start, n as nat);
            lemma_holds_split(s, at, head(MAJOR_ARRAY, n), enc_items(array.0));
        }
    }
}

/// An entry of a map: the name of a field, as a text, and then its value.
pub open spec fn enc_entry<T: Wire>(name: Seq<char>, value: T) -> Seq<u8> {
    Text(name).enc() + value.enc()
}

/// Reads the entry of the field `name` at position `at`.
pub open spec fn parse_entry_at<T: Wire>(s: Seq<u8>, at: int, name: Seq<char>) -> Option<(T, int)> {
    match key_at(s, at, name) {
        Some(start) => T::parse_at(s, start),
        None => None,
    }
}

/// Reads the entry of the field `name` where the entry before it has ended,
/// if it was read.
pub open spec fn next_entry<T: Wire>(s: Seq<u8>, at: Option<int>, name: Seq<char>) -> Option<
    (T, int),
> {
    match at {
        Some(start) => parse_entry_at::<T>(s, start, name),
        None => None,
    }
}

/// The position after what was read, if it was read.
pub open spec fn end_of<T>(read: Option<(T, int)>) -> Option<int> {
    match read {
        Some((_, end)) => Some(end),
        None => None,
    }
}

/// An entry is read back where it stands.
pub proof fn lemma_parse_entry<T: Wire>(name: Seq<char>, value: T, s: Seq<u8>, at: int)
    requires
        value.wf(),
        holds_at(s, at, enc_entry(name, value)),
    ensures
        parse_entry_at::<T>(s, at, name) == Some((value, at + enc_entry(name, value).len())),
{
    lemma_holds_split(s, at, Text(name).enc(), value.enc());
    value.lemma_parse_enc(s, at + Text(name).enc().len());
}

/// Where an entry is read, it stands.
pub proof fn lemma_parse_entry_sound<T: Wire>(s: Seq<u8>, at: int, name: Seq<char>)
    ensures
        parse_entry_at::<T>(s, at, name) matches Some((value, end)) ==> value.wf() && holds_at(
            s,
            at,
            enc_entry(name, value),
        ) && end == at + enc_entry(name, value).len(),
{
    if let Some((value, end)) = parse_entry_at::<T>(s, at, name) {
        let start = key_at(s, at, name)->Some_0;
        T::lemma_parse_sound(s, start);
        lemma_holds_split(s, at, Text(name).enc(), value.enc());
    }
}

/// The head of a map with `count` entries stands at position `at`; the
/// position after it.
pub open spec fn map_head_at(s: Seq<u8>, at: int, count: u64) -> Option<int> {
    match parse_head_at(s, at) {
        Some((major, n, end)) => if major == MAJOR_MAP && n == count {
            Some(end)
        } else {
            None
        },
        None => None,
    }
}

/// The entries of the first fields of a record whose fields are unsigned
/// integers: as many as there are values.
pub open spec fn enc_fields(names: Seq<Seq<char>>, values: Seq<u64>) -> Seq<u8>
    decreases values.len(),
{
    if values.len() == 0 {
        Seq::empty()
    } else {
        enc_fields(names, values.drop_last()) + enc_entry(
            names[values.len() - 1],
            values.last(),
        )
    }
}

/// Reads the entries of the first `n` fields of a record whose fields are
/// unsigned integers.
pub open spec fn parse_fields_at(s: Seq<u8>, at: int, names: Seq<Seq<char>>, n: nat) -> Option<
    (Seq<u64>, int),
>
    decreases n,
{
    if n == 0 {
        Some((Seq::empty(), at))
    } else {
        match parse_fields_at(s, at, names, (n - 1) as nat) {
            Some((values, end)) => match parse_entry_at::<u64>(s, end, names[n - 1]) {
                Some((value, after)) => Some((values.push(value), after)),
                None => None,
            },
            None => None,
        }
    }
}

/// Fields are read back where their entries stand.
pub proof fn lemma_parse_fields(names: Seq<Seq<char>>, values: Seq<u64>, s: Seq<u8>, at: int)
    requires
        holds_at(s, at, enc_fields(names, values)),
    ensures
        parse_fields_at(s, at, names, values.len()) == Some(
            (values, at + enc_fields(names, values).len()),
        ),
    decreases values.len(),
{
    if values.len() > 0 {
        let earlier = values.drop_last();
        let name = names[values.len() - 1];
        lemma_holds_split(s, at, enc_fields(names, earlier), enc_entry(name, values.last()));
        lemma_parse_fields(names, earlier, s, at);
        lemma_parse_entry(name, values.last(), s, at + enc_fields(names, earlier).len());
        assert(earlier.push(values.last()) =~= values);
    }
}

/// Where fields are read, their entries stand.
pub proof fn lemma_parse_fields_sound(s: Seq<u8>, at: int, names: Seq<Seq<char>>, n: nat)
    requires
        0 <= at <= s.len(),
    ensures
        parse_fields_at(s, at, names, n) matches Some((values, end)) ==> values.len() == n
            && holds_at(s, at, enc_fields(names, values)) && end == at + enc_fields(
            names,
            values,
        ).len(),
    decreases n,
{
    if n == 0 {
        assert(s.subrange(at, at) =~= Seq::<u8>::empty());
    } else {
        lemma_parse_fields_sound(s, at, names, (n - 1) as nat);
        if let Some((values, end)) = parse_fields_at(s, at, names, n) {
            let (earlier, middle) = parse_fields_at(s, at, names, (n - 1) as nat)->Some_0;
            lemma_parse_entry_sound::<u64>(s, middle, names[n - 1]);
            assert(values.drop_last() =~= earlier);
            lemma_holds_split(
                s,
                at,
                enc_fields(names, earlier),
                enc_entry(names[n - 1], values.last()),
            );
        }
    }
}

/// An entry that stands after a prefix is read where the prefix ends.
pub proof fn lemma_next_entry<T: Wire>(
    s: Seq<u8>,
    at: int,
    prefix: Seq<u8>,
    name: Seq<char>,
    value: T,
)
    requires
        value.wf(),
        holds_at(s, at, prefix + enc_entry(name, value)),
    ensures
        holds_at(s, at, prefix),
        next_entry::<T>(s, Some(at + prefix.len()), name) == Some(
            (value, at + (prefix + enc_entry(name, value)).len()),
        ),
{
    lemma_holds_split(s, at, prefix, enc_entry(name, value));
    lemma_parse_entry(name, value, s, at + prefix.len());
}

/// Where an entry is read after a prefix that stands, the prefix stands with
/// the entry after it.
pub proof fn lemma_next_entry_sound<T: Wire>(
    s: Seq<u8>,
    at: int,
    prefix: Seq<u8>,
    name: Seq<char>,
)
    requires
        holds_at(s, at, prefix),
    ensures
        next_entry::<T>(s, Some(at + prefix.len()), name) matches Some((value, end))
            ==> value.wf() && holds_at(s, at, prefix + enc_entry(name, value)) && end == at + (
        prefix + enc_entry(name, value)).len(),
{
    lemma_parse_entry_sound::<T>(s, at + prefix.len(), name);
    if let Some((value, end)) = next_entry::<T>(s, Some(at + prefix.len()), name) {
        lemma_holds_split(s, at, prefix, enc_entry(name, value));
    }
}

/// Where `n` items are read, fewer are read as well.
pub proof fn lemma_parse_items_fewer<T: Wire>(s: Seq<u8>, at: int, k: nat, n: nat)
    requires
        k <= n,
        parse_items_at::<T>(s, at, n) is Some,
    ensures
        parse_items_at::<T>(s, at, k) is Some,
    decreases n - k,
{
    if k < n {
        lemma_parse_items_fewer::<T>(s, at, k, (n - 1) as nat);
    }
}

/// Where `n` fields are read, fewer are read as well.
pub proof fn lemma_parse_fields_fewer(s: Seq<u8>, at: int, names: Seq<Seq<char>>, k: nat, n: nat)
    requires
        k <= n,
        parse_fields_at(s, at, names, n) is Some,
    ensures
        parse_fields_at(s, at, names, k) is Some,
    decreases n - k,
{
    if k < n {
        lemma_parse_fields_fewer(s, at, names, k, (n - 1) as nat);
    }
}

/// The value whose wire form is `bytes`, if there is one.
pub open spec fn decoded<T: Wire>(bytes: Seq<u8>) -> Option<T> {
    if exists|value: T| #[trigger] value.wf() && value.enc() == bytes {
        Some(choose|value: T| #[trigger] value.wf() && value.enc() == bytes)
    } else {
        None
    }
}

/// The value whose wire form is `bytes` is the one that is read from the
/// beginning of `bytes` and ends where `bytes` ends.
pub proof fn lemma_decoded<T: Wire>(bytes: Seq<u8>)
    ensures
        decoded::<T>(bytes) == match T::parse_at(bytes, 0) {
            Some((value, end)) => if end == bytes.len() {
                Some(value)
            } else {
                None
            },
            None => None,
        },
{
    T::lemma_parse_sound(bytes, 0);
    assert forall|value: T| #[trigger] value.wf() && value.enc() == bytes implies T::parse_at(
        bytes,
        0,
    ) == Some((value, bytes.len() as int)) by {
        assert(bytes.subrange(0, bytes.len() as int) =~= bytes);
        value.lemma_parse_enc(bytes, 0);
    }
    if let Some((value, end)) = T::parse_at(bytes, 0) {
        if end == bytes.len() {
            assert(bytes.subrange(0, bytes.len() as int) =~= bytes);
            assert(value.wf() && value.enc() == bytes);
        }
    }
}

/// Writing a value and reading the bytes back gives the value.
pub proof fn lemma_round_trip<T: Wire>(value: T)
    requires
        value.wf(),
    ensures
        decoded::<T>(value.enc()) == Some(value),
{
    let bytes = value.enc();
    lemma_decoded::<T>(bytes);
    assert(bytes.subrange(0, bytes.len() as int) =~= bytes);
    value.lemma_parse_enc(bytes, 0);
}

/// Two values with the same wire form are the same value.
pub proof fn lemma_enc_injective<T: Wire>(a: T, b: T)
    requires
        a.wf(),
        b.wf(),
        a.enc() == b.enc(),
    ensures
        a == b,
{
    lemma_round_trip(a);
    lemma_round_trip(b);
}

} // verus!
