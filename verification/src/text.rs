//! Comparison and search on text, by the bytes of its UTF-8 encoding.

use vstd::prelude::*;

verus! {

/// The UTF-8 bytes of a text.
pub open spec fn bytes_of(s: Seq<char>) -> Seq<u8> {
    vstd::utf8::encode_utf8(s)
}

/// Two texts with the same bytes are the same text.
pub proof fn lemma_bytes_injective(a: Seq<char>, b: Seq<char>)
    ensures
        bytes_of(a) == bytes_of(b) <==> a == b,
{
    vstd::utf8::encode_utf8_decode_utf8(a);
    vstd::utf8::encode_utf8_decode_utf8(b);
}

/// Whether two texts are the same.
pub fn same_text(a: &str, b: &str) -> (eq: bool)
    ensures
        eq <==> a@ == b@,
{
    let x = a.as_bytes();
    let y = b.as_bytes();
    proof {
        lemma_bytes_injective(a@, b@);
    }
    if x.len() != y.len() {
        return false;
    }
    let mut i: usize = 0;
    while i < x.len()
        invariant
            i <= x.len(),
            x.len() == y.len(),
            forall|j: int| 0 <= j < i ==> x@[j] == y@[j],
            x@ == bytes_of(a@),
            y@ == bytes_of(b@),
            bytes_of(a@) == bytes_of(b@) <==> a@ == b@,
        decreases x.len() - i,
    {
        if x[i] != y[i] {
            return false;
        }
        i = i + 1;
    }
    assert(x@ =~= y@);
    true
}


/// Lexicographic order of byte sequences.
pub open spec fn bytes_le(a: Seq<u8>, b: Seq<u8>) -> bool
    decreases a.len(),
{
    if a.len() == 0 {
        true
    } else if b.len() == 0 {
        false
    } else if a[0] != b[0] {
        a[0] < b[0]
    } else {
        bytes_le(a.drop_first(), b.drop_first())
    }
}

/// Order of texts, by their bytes.
pub open spec fn text_le(a: Seq<char>, b: Seq<char>) -> bool {
    bytes_le(bytes_of(a), bytes_of(b))
}

/// [`text_le`] as a relation.
pub open spec fn text_order() -> spec_fn(Seq<char>, Seq<char>) -> bool {
    |a: Seq<char>, b: Seq<char>| text_le(a, b)
}

proof fn lemma_bytes_connected(a: Seq<u8>, b: Seq<u8>)
    ensures
        bytes_le(a, b) || bytes_le(b, a),
        bytes_le(a, b) && bytes_le(b, a) ==> a == b,
    decreases a.len(),
{
    if a.len() == 0 {
        if b.len() == 0 {
            assert(a =~= b);
        }
    } else if b.len() > 0 && a[0] == b[0] {
        lemma_bytes_connected(a.drop_first(), b.drop_first());
        if bytes_le(a, b) && bytes_le(b, a) {
            assert(a =~= seq![a[0]] + a.drop_first());
            assert(b =~= seq![b[0]] + b.drop_first());
        }
    }
}

proof fn lemma_bytes_transitive(a: Seq<u8>, b: Seq<u8>, c: Seq<u8>)
    requires
        bytes_le(a, b),
        bytes_le(b, c),
    ensures
        bytes_le(a, c),
    decreases a.len(),
{
    if a.len() > 0 && b.len() > 0 && c.len() > 0 && a[0] == b[0] && b[0] == c[0] {
        lemma_bytes_transitive(a.drop_first(), b.drop_first(), c.drop_first());
    }
}

/// The order of texts is total.
pub proof fn lemma_text_order()
    ensures
        vstd::relations::total_ordering(text_order()),
{
    let r = text_order();
    assert forall|x: Seq<char>| #[trigger] r(x, x) by {
        lemma_bytes_connected(bytes_of(x), bytes_of(x));
    }
    assert forall|x: Seq<char>, y: Seq<char>| #[trigger] r(x, y) && #[trigger] r(y, x) implies x
        == y by {
        lemma_bytes_connected(bytes_of(x), bytes_of(y));
        lemma_bytes_injective(x, y);
    }
    assert forall|x: Seq<char>, y: Seq<char>, z: Seq<char>| #[trigger]
        r(x, y) && #[trigger] r(y, z) implies r(x, z) by {
        lemma_bytes_transitive(bytes_of(x), bytes_of(y), bytes_of(z));
    }
    assert forall|x: Seq<char>, y: Seq<char>| #[trigger] r(x, y) || #[trigger] r(y, x) by {
        lemma_bytes_connected(bytes_of(x), bytes_of(y));
    }
}

/// Whether `a` does not come after `b`.
pub fn not_after(a: &str, b: &str) -> (le: bool)
    ensures
        le == text_le(a@, b@),
{
    let x = a.as_bytes();
    let y = b.as_bytes();
    let mut i: usize = 0;
    assert(x@.skip(0) =~= x@);
    assert(y@.skip(0) =~= y@);
    while i < x.len()
        invariant
            i <= x.len(),
            i <= y.len(),
            x@ == bytes_of(a@),
            y@ == bytes_of(b@),
            bytes_le(x@, y@) == bytes_le(x@.skip(i as int), y@.skip(i as int)),
        decreases x.len() - i,
    {
        if i >= y.len() {
            return false;
        }
        if x[i] != y[i] {
            return x[i] < y[i];
        }
        assert(x@.skip(i as int).drop_first() =~= x@.skip(i + 1));
        assert(y@.skip(i as int).drop_first() =~= y@.skip(i + 1));
        i = i + 1;
    }
    true
}

/// The texts of a list of strings.
pub open spec fn texts(v: Seq<String>) -> Seq<Seq<char>> {
    Seq::new(v.len(), |i: int| v[i]@)
}

/// The texts in ascending order.
pub open spec fn sorted(v: Seq<Seq<char>>) -> Seq<Seq<char>> {
    v.sort_by(text_order())
}

/// Two ascending lists of the same texts are the same list.
proof fn lemma_sorted_unique(x: Seq<Seq<char>>, y: Seq<Seq<char>>)
    requires
        vstd::relations::sorted_by(x, text_order()),
        vstd::relations::sorted_by(y, text_order()),
        x.to_multiset() == y.to_multiset(),
    ensures
        x == y,
    decreases x.len(),
{
    broadcast use vstd::seq_lib::group_to_multiset_ensures;
    let r = text_order();
    lemma_text_order();
    assert(x.len() == x.to_multiset().len() == y.len());
    if x.len() == 0 {
        assert(x =~= y);
    } else {
        assert(x.to_multiset().count(y[0]) > 0) by {
            assert(y.contains(y[0]));
        }
        assert(y.to_multiset().count(x[0]) > 0) by {
            assert(x.contains(x[0]));
        }
        let i = choose|i: int| 0 <= i < x.len() && x[i] == y[0];
        let j = choose|j: int| 0 <= j < y.len() && y[j] == x[0];
        assert(r(x[0], y[0])) by {
            assert(r(x[0], x[0]));
            if i > 0 {
                assert(r(x[0], x[i]));
            }
        }
        assert(r(y[0], x[0])) by {
            assert(r(y[0], y[0]));
            if j > 0 {
                assert(r(y[0], y[j]));
            }
        }
        assert(x[0] == y[0]);
        let x2 = x.remove(0);
        let y2 = y.remove(0);
        assert(x2.to_multiset() =~= x.to_multiset().remove(x[0]));
        assert(y2.to_multiset() =~= y.to_multiset().remove(y[0]));
        assert forall|a: int, b: int| 0 <= a < b < x2.len() implies #[trigger] r(x2[a], x2[b]) by {
            assert(r(x[a + 1], x[b + 1]));
        }
        assert forall|a: int, b: int| 0 <= a < b < y2.len() implies #[trigger] r(y2[a], y2[b]) by {
            assert(r(y[a + 1], y[b + 1]));
        }
        lemma_sorted_unique(x2, y2);
        assert(x =~= x2.insert(0, x[0]));
        assert(y =~= y2.insert(0, y[0]));
    }
}

/// Sorting forgets the order of a list, and nothing else.
pub proof fn lemma_sorted_same(x: Seq<Seq<char>>, y: Seq<Seq<char>>)
    ensures
        sorted(x) == sorted(y) <==> x.to_multiset() == y.to_multiset(),
        sorted(x).to_multiset() == x.to_multiset(),
        vstd::relations::sorted_by(sorted(x), text_order()),
{
    lemma_text_order();
    x.lemma_sort_by_ensures(text_order());
    y.lemma_sort_by_ensures(text_order());
    if x.to_multiset() == y.to_multiset() {
        lemma_sorted_unique(sorted(x), sorted(y));
    }
}

/// Sorts a list of strings.
pub fn sort_texts(v: Vec<String>) -> (out: Vec<String>)
    ensures
        texts(out@) == sorted(texts(v@)),
{
    broadcast use vstd::seq_lib::group_to_multiset_ensures;
    let mut out: Vec<String> = Vec::new();
    let ghost r = text_order();
    proof {
        lemma_text_order();
        assert(texts(v@.take(0)) =~= texts(out@));
    }
    let mut i: usize = 0;
    while i < v.len()
        invariant
            i <= v.len(),
            r == text_order(),
            vstd::relations::total_ordering(r),
            vstd::relations::sorted_by(texts(out@), r),
            texts(out@).to_multiset() == texts(v@.take(i as int)).to_multiset(),
        decreases v.len() - i,
    {
        let item = v[i].clone();
        // everything before `k` is at most the item
        let mut k: usize = out.len();
        while k > 0 && !not_after(out[k - 1].as_str(), item.as_str())
            invariant
                k <= out.len(),
                r == text_order(),
                forall|j: int| k <= j < out@.len() ==> !r(#[trigger] texts(out@)[j], item@),
            decreases k,
        {
            k = k - 1;
            assert(texts(out@)[k as int] == out@[k as int]@);
        }
        proof {
            let t = texts(out@);
            let item_text = item@;
            assert(k > 0 ==> r(t[k - 1], item_text));
            let t2 = t.insert(k as int, item_text);
            assert forall|a: int, b: int| 0 <= a < b < t2.len() implies #[trigger] r(
                t2[a],
                t2[b],
            ) by {
                if b < k {
                    assert(r(t[a], t[b]));
                } else if b == k {
                    if a < k - 1 {
                        assert(r(t[a], t[k - 1]));
                    }
                } else if a == k {
                    assert(!r(t[b - 1], item_text));
                    assert(r(t[b - 1], item_text) || r(item_text, t[b - 1]));
                } else if a > k {
                    assert(r(t[a - 1], t[b - 1]));
                } else {
                    assert(r(t[a], t[b - 1]));
                }
            }
            vstd::seq_lib::to_multiset_insert(t, k as int, item_text);
            assert(v@.take(i + 1) =~= v@.take(i as int).push(v@[i as int]));
            assert(texts(v@.take(i + 1)) =~= texts(v@.take(i as int)).push(item_text));
            vstd::seq_lib::to_multiset_build(texts(v@.take(i as int)), item_text);
            assert(t2.to_multiset() == texts(v@.take(i + 1)).to_multiset());
        }
        let ghost before = out@;
        out.insert(k, item);
        assert(texts(out@) =~= texts(before).insert(k as int, item@));
        i = i + 1;
    }
    proof {
        assert(v@.take(i as int) =~= v@);
        texts(v@).lemma_sort_by_ensures(r);
        lemma_sorted_unique(texts(out@), sorted(texts(v@)));
    }
    out
}


/// A digit to the base 16, as text.
pub open spec fn digit(d: int) -> Seq<char> {
    match d as u8 {
        0 => "0"@,
        1 => "1"@,
        2 => "2"@,
        3 => "3"@,
        4 => "4"@,
        5 => "5"@,
        6 => "6"@,
        7 => "7"@,
        8 => "8"@,
        9 => "9"@,
        10 => "a"@,
        11 => "b"@,
        12 => "c"@,
        13 => "d"@,
        14 => "e"@,
        _ => "f"@,
    }
}

fn digit_of(d: u8) -> (s: &'static str)
    requires
        d < 16,
    ensures
        s@ == digit(d as int),
{
    match d {
        0 => "0",
        1 => "1",
        2 => "2",
        3 => "3",
        4 => "4",
        5 => "5",
        6 => "6",
        7 => "7",
        8 => "8",
        9 => "9",
        10 => "a",
        11 => "b",
        12 => "c",
        13 => "d",
        14 => "e",
        _ => "f",
    }
}

/// A number in decimal notation.
pub open spec fn decimal(n: nat) -> Seq<char>
    decreases n,
{
    if n < 10 {
        digit(n as int)
    } else {
        decimal(n / 10) + digit((n % 10) as int)
    }
}

/// A signed number in decimal notation.
pub open spec fn signed_decimal(n: int) -> Seq<char> {
    if n < 0 {
        "-"@ + decimal((-n) as nat)
    } else {
        decimal(n as nat)
    }
}

/// Appends a number in decimal notation.
pub fn append_decimal(s: &mut String, n: u128)
    ensures
        final(s)@ == old(s)@ + decimal(n as nat),
    decreases n,
{
    if n >= 10 {
        append_decimal(s, n / 10);
    }
    let ghost before = s@;
    s.append(digit_of((n % 10) as u8));
    assert(s@ =~= old(s)@ + decimal(n as nat));
}

/// Appends a signed number in decimal notation.
pub fn append_signed(s: &mut String, n: i128)
    ensures
        final(s)@ == old(s)@ + signed_decimal(n as int),
{
    if n < 0 {
        s.append("-");
        append_decimal(s, (-(n + 1)) as u128 + 1);
        assert(s@ =~= old(s)@ + signed_decimal(n as int));
    } else {
        append_decimal(s, n as u128);
    }
}

/// Two digits per byte.
pub open spec fn hex(b: Seq<u8>) -> Seq<char>
    decreases b.len(),
{
    if b.len() == 0 {
        Seq::empty()
    } else {
        hex(b.drop_last()) + digit(b.last() as int / 16) + digit(b.last() as int % 16)
    }
}

/// Appends bytes in hexadecimal notation.
pub fn append_hex(s: &mut String, b: &[u8])
    ensures
        final(s)@ == old(s)@ + hex(b@),
{
    let ghost s0 = s@;
    let mut i: usize = 0;
    assert(s@ =~= s0 + hex(b@.take(0)));
    while i < b.len()
        invariant
            i <= b.len(),
            s@ == s0 + hex(b@.take(i as int)),
        decreases b.len() - i,
    {
        s.append(digit_of(b[i] / 16));
        s.append(digit_of(b[i] % 16));
        assert(b@.take(i + 1).drop_last() =~= b@.take(i as int));
        assert(s@ =~= s0 + hex(b@.take(i + 1)));
        i = i + 1;
    }
    assert(b@.take(i as int) =~= b@);
}

/// The value of a hexadecimal digit in ASCII, of either case.
pub open spec fn digit_value(c: u8) -> Option<int> {
    if 0x30 <= c <= 0x39 {
        Some(c - 0x30)
    } else if 0x61 <= c <= 0x66 {
        Some(c - 0x61 + 10)
    } else if 0x41 <= c <= 0x46 {
        Some(c - 0x41 + 10)
    } else {
        None
    }
}

fn digit_value_of(c: u8) -> (v: Option<u8>)
    ensures
        v matches Some(d) ==> digit_value(c) == Some(d as int) && d < 16,
        v is None ==> digit_value(c) is None,
{
    if 0x30 <= c && c <= 0x39 {
        Some(c - 0x30)
    } else if 0x61 <= c && c <= 0x66 {
        Some(c - 0x61 + 10)
    } else if 0x41 <= c && c <= 0x46 {
        Some(c - 0x41 + 10)
    } else {
        None
    }
}

/// The bytes that hexadecimal digits stand for, two digits each. Nothing for an
/// odd number of digits or for another character.
pub open spec fn unhex(t: Seq<u8>) -> Option<Seq<u8>> {
    if t.len() % 2 == 0 && forall|i: int| 0 <= i < t.len()
        ==> digit_value(#[trigger] t[i]) is Some {
        Some(
            Seq::new(
                (t.len() / 2) as nat,
                |i: int| (digit_value(t[2 * i])->0 * 16 + digit_value(t[2 * i + 1])->0) as u8,
            ),
        )
    } else {
        None
    }
}

/// Decodes hexadecimal digits.
pub fn decode_hex(s: &str) -> (b: Option<Vec<u8>>)
    ensures
        b matches Some(v) ==> unhex(bytes_of(s@)) == Some(v@),
        b is None ==> unhex(bytes_of(s@)) is None,
{
    let t = s.as_bytes();
    if t.len() % 2 != 0 {
        return None;
    }
    let mut out: Vec<u8> = Vec::new();
    let mut i: usize = 0;
    while i < t.len()
        invariant
            i <= t.len(),
            i % 2 == 0,
            t.len() % 2 == 0,
            t@ == bytes_of(s@),
            out@.len() == i / 2,
            forall|j: int| 0 <= j < i ==> digit_value(#[trigger] t@[j]) is Some,
            forall|j: int|
                0 <= j < out@.len() ==> #[trigger] out@[j] == (digit_value(t@[2 * j])->0 * 16
                    + digit_value(t@[2 * j + 1])->0) as u8,
        decreases t.len() - i,
    {
        let hi = digit_value_of(t[i]);
        let lo = digit_value_of(t[i + 1]);
        if hi.is_none() {
            assert(digit_value(t@[i as int]) is None);
            return None;
        }
        if lo.is_none() {
            assert(digit_value(t@[i + 1]) is None);
            return None;
        }
        let h: u8 = hi.unwrap();
        let l: u8 = lo.unwrap();
        out.push(h * 16 + l);
        assert(2 * (i / 2) == i);
        i = i + 2;
    }
    assert(out@ =~= unhex(bytes_of(s@))->0);
    Some(out)
}

proof fn lemma_digit(d: int)
    requires
        0 <= d < 16,
    ensures
        digit(d).len() == 1,
        '\0' <= digit(d)[0] <= '\u{7f}',
        digit_value(digit(d)[0] as u8) == Some(d),
{
    reveal_strlit("0");
    reveal_strlit("1");
    reveal_strlit("2");
    reveal_strlit("3");
    reveal_strlit("4");
    reveal_strlit("5");
    reveal_strlit("6");
    reveal_strlit("7");
    reveal_strlit("8");
    reveal_strlit("9");
    reveal_strlit("a");
    reveal_strlit("b");
    reveal_strlit("c");
    reveal_strlit("d");
    reveal_strlit("e");
    reveal_strlit("f");
}

proof fn lemma_hex_digits(b: Seq<u8>)
    ensures
        hex(b).len() == 2 * b.len(),
        forall|i: int| 0 <= i < hex(b).len() ==> '\0' <= #[trigger] hex(b)[i] <= '\u{7f}',
        forall|i: int|
            0 <= i < b.len() ==> digit_value((#[trigger] hex(b)[2 * i]) as u8) == Some(
                b[i] as int / 16,
            ) && digit_value(hex(b)[2 * i + 1] as u8) == Some(b[i] as int % 16),
    decreases b.len(),
{
    if b.len() > 0 {
        let f = b.drop_last();
        let x = b.last() as int;
        lemma_hex_digits(f);
        lemma_digit(x / 16);
        lemma_digit(x % 16);
        let h = hex(b);
        assert(h.len() == 2 * b.len());
        assert(h[2 * f.len() as int] == digit(x / 16)[0]);
        assert(h[2 * f.len() as int + 1] == digit(x % 16)[0]);
        assert forall|i: int| 0 <= i < 2 * f.len() implies #[trigger] h[i] == hex(f)[i] by {}
        assert forall|i: int| 0 <= i < b.len() implies digit_value((#[trigger] h[2 * i]) as u8)
            == Some(b[i] as int / 16) && digit_value(h[2 * i + 1] as u8) == Some(
            b[i] as int % 16,
        ) by {
            if i < f.len() {
                assert(h[2 * i] == hex(f)[2 * i]);
                assert(h[2 * i + 1] == hex(f)[2 * i + 1]);
                assert(f[i] == b[i]);
            }
        }
    }
}

/// Law: bytes written in hexadecimal notation are read back unchanged.
pub proof fn law_hex_round_trip(b: Seq<u8>)
    ensures
        unhex(bytes_of(hex(b))) == Some(b),
{
    let t = bytes_of(hex(b));
    lemma_hex_digits(b);
    assert(vstd::utf8::is_ascii_chars(hex(b)));
    vstd::utf8::is_ascii_chars_encode_utf8(hex(b));
    assert forall|i: int| 0 <= i < t.len() implies digit_value(#[trigger] t[i]) is Some by {
        assert(t[i] == hex(b)[i] as u8);
        if i % 2 == 0 {
            assert(i == 2 * (i / 2));
            assert(digit_value(hex(b)[2 * (i / 2)] as u8) is Some);
        } else {
            assert(i == 2 * (i / 2) + 1);
            assert(hex(b)[2 * (i / 2)] <= '\u{7f}');
            assert(digit_value(hex(b)[2 * (i / 2) + 1] as u8) is Some);
        }
    }
    let d = unhex(t)->0;
    assert forall|i: int| 0 <= i < b.len() implies #[trigger] d[i] == b[i] by {
        assert(t[2 * i] == hex(b)[2 * i] as u8);
        assert(t[2 * i + 1] == hex(b)[2 * i + 1] as u8);
    }
    assert(d =~= b);
}

} // verus!
