//! Splitting text at an ASCII separator, with contracts stated over characters.
use vstd::prelude::*;
use vstd::string::StringSliceAdditionalSpecFns;
use vstd::utf8::*;

verus! {

broadcast use {encode_utf8_valid_utf8, encode_utf8_decode_utf8};

/// Whether `c` is encoded in UTF-8 as the single byte `c as u8`.
pub open spec fn is_ascii_char(c: char) -> bool {
    (c as u32) < 128
}

/// Index of the last occurrence of `c` in `s`, or -1 when `c` does not occur.
pub open spec fn last_index_of(s: Seq<char>, c: char) -> int
    decreases s.len(),
{
    if s.len() == 0 {
        -1
    } else if s.last() == c {
        s.len() - 1
    } else {
        last_index_of(s.drop_last(), c)
    }
}

/// Index of the first occurrence of `c` in `s`, or -1 when `c` does not occur.
pub open spec fn first_index_of(s: Seq<char>, c: char) -> int
    decreases s.len(),
{
    if s.len() == 0 {
        -1
    } else if s[0] == c {
        0
    } else {
        let k = first_index_of(s.drop_first(), c);
        if k < 0 { -1 } else { k + 1 }
    }
}

proof fn lemma_ascii_scalar(v: u32)
    requires
        v < 128,
    ensures
        (v & 0x7F) as u8 == v as u8,
{
    assert(v < 128 ==> (v & 0x7F) == v) by (bit_vector);
}

/// An ASCII character is encoded as one byte holding its code.
proof fn lemma_encode_ascii(c: char)
    requires
        is_ascii_char(c),
    ensures
        encode_utf8(seq![c]) == seq![c as u8],
{
    lemma_ascii_scalar(c as u32);
    assert(seq![c].drop_first() =~= Seq::<char>::empty());
    assert(encode_utf8(Seq::<char>::empty()) == Seq::<u8>::empty());
    assert(has_width_1_encoding(c as u32));
    assert(encode_scalar(c as u32) == seq![c as u8]);
    assert(encode_utf8(seq![c]) == encode_scalar(c as u32) + encode_utf8(seq![c].drop_first()));
    assert(encode_utf8(seq![c]) =~= seq![c as u8]);
}

/// Encoding distributes over concatenation.
proof fn lemma_encode_concat(a: Seq<char>, b: Seq<char>)
    ensures
        encode_utf8(a + b) == encode_utf8(a) + encode_utf8(b),
    decreases a.len(),
{
    if a.len() == 0 {
        assert(a + b =~= b);
        assert(encode_utf8(a) + encode_utf8(b) =~= encode_utf8(b));
    } else {
        assert((a + b).drop_first() =~= a.drop_first() + b);
        lemma_encode_concat(a.drop_first(), b);
        assert(encode_utf8(a + b) =~= encode_utf8(a) + encode_utf8(b));
    }
}

/// Where an ASCII character occurs in `s`, its byte occurs in the encoding of `s`.
proof fn lemma_char_gives_byte(s: Seq<char>, c: char, j: int)
    requires
        is_ascii_char(c),
        0 <= j < s.len(),
        s[j] == c,
    ensures
        exists|i: int| 0 <= i < encode_utf8(s).len() && #[trigger] encode_utf8(s)[i] == c as u8,
{
    let pre = s.subrange(0, j);
    let post = s.subrange(j + 1, s.len() as int);
    assert(s =~= pre + seq![c] + post);
    lemma_encode_concat(pre + seq![c], post);
    lemma_encode_concat(pre, seq![c]);
    lemma_encode_ascii(c);
    let i = encode_utf8(pre).len() as int;
    assert(encode_utf8(s)[i] == c as u8);
}

/// A sequence with no occurrence of `c` has no last occurrence of it.
proof fn lemma_absent_last_index(s: Seq<char>, c: char)
    requires
        forall|j: int| 0 <= j < s.len() ==> s[j] != c,
    ensures
        last_index_of(s, c) == -1,
    decreases s.len(),
{
    if s.len() > 0 {
        lemma_absent_last_index(s.drop_last(), c);
    }
}

/// A sequence with no occurrence of `c` has no first occurrence of it.
proof fn lemma_absent_first_index(s: Seq<char>, c: char)
    requires
        forall|j: int| 0 <= j < s.len() ==> s[j] != c,
    ensures
        first_index_of(s, c) == -1,
    decreases s.len(),
{
    if s.len() > 0 {
        lemma_absent_first_index(s.drop_first(), c);
    }
}

/// In `a + [c] + b` where `b` holds no `c`, the last `c` stands at `a.len()`.
proof fn lemma_last_index_split(a: Seq<char>, c: char, b: Seq<char>)
    requires
        forall|j: int| 0 <= j < b.len() ==> b[j] != c,
    ensures
        last_index_of(a + seq![c] + b, c) == a.len(),
    decreases b.len(),
{
    if b.len() == 0 {
        assert(a + seq![c] + b =~= a.push(c));
    } else {
        assert((a + seq![c] + b).drop_last() =~= a + seq![c] + b.drop_last());
        lemma_last_index_split(a, c, b.drop_last());
    }
}

/// In `a + [c] + b` where `a` holds no `c`, the first `c` stands at `a.len()`.
proof fn lemma_first_index_split(a: Seq<char>, c: char, b: Seq<char>)
    requires
        forall|j: int| 0 <= j < a.len() ==> a[j] != c,
    ensures
        first_index_of(a + seq![c] + b, c) == a.len(),
    decreases a.len(),
{
    if a.len() == 0 {
        assert(a + seq![c] + b =~= seq![c] + b);
    } else {
        assert((a + seq![c] + b).drop_first() =~= a.drop_first() + seq![c] + b);
        lemma_first_index_split(a.drop_first(), c, b);
    }
}

/// Index of the last byte `x` in `b`, if any.
fn find_last_byte(b: &[u8], x: u8) -> (r: Option<usize>)
    ensures
        match r {
            Some(i) => i < b@.len() && b@[i as int] == x && forall|k: int|
                i < k < b@.len() ==> b@[k] != x,
            None => forall|k: int| 0 <= k < b@.len() ==> b@[k] != x,
        },
{
    let mut i: usize = b.len();
    while i > 0
        invariant
            i <= b@.len(),
            forall|k: int| i <= k < b@.len() ==> b@[k] != x,
        decreases i,
    {
        if b[i - 1] == x {
            return Some(i - 1);
        }
        i = i - 1;
    }
    None
}

/// Index of the first byte `x` in `b`, if any.
fn find_first_byte(b: &[u8], x: u8) -> (r: Option<usize>)
    ensures
        match r {
            Some(i) => i < b@.len() && b@[i as int] == x && forall|k: int|
                0 <= k < i ==> b@[k] != x,
            None => forall|k: int| 0 <= k < b@.len() ==> b@[k] != x,
        },
{
    let mut i: usize = 0;
    while i < b.len()
        invariant
            i <= b@.len(),
            forall|k: int| 0 <= k < i ==> b@[k] != x,
        decreases b@.len() - i,
    {
        if b[i] == x {
            return Some(i);
        }
        i = i + 1;
    }
    None
}

/// Splits `s` around the ASCII character `c` whose byte stands at index `i`.
fn split_around<'a>(s: &'a str, c: char, i: usize) -> (r: (&'a str, &'a str))
    requires
        is_ascii_char(c),
        i < s.spec_bytes().len(),
        s.spec_bytes()[i as int] == c as u8,
    ensures
        s@ == r.0@ + seq![c] + r.1@,
        r.0.spec_bytes() == s.spec_bytes().subrange(0, i as int),
        r.1.spec_bytes() == s.spec_bytes().subrange(i + 1, s.spec_bytes().len() as int),
{
    let ghost bytes = s.spec_bytes();
    proof {
        is_char_boundary_iff_not_is_continuation_byte(bytes, i as int);
        decode_utf8_split(bytes, i as int);
        valid_utf8_split(bytes, i as int);
    }
    let (before, rest) = s.split_at(i);
    let ghost rb = rest.spec_bytes();
    proof {
        assert(rb[0] == c as u8);
        reveal_with_fuel(is_char_boundary, 2);
        assert(is_char_boundary(rb, 1));
        decode_utf8_split(rb, 1);
    }
    let (sep, after) = rest.split_at(1);
    proof {
        lemma_encode_ascii(c);
        assert(sep.spec_bytes() =~= seq![c as u8]);
        assert(sep@ == decode_utf8(encode_utf8(sep@)));
        assert(sep@ == seq![c]);
        assert(before@ == decode_utf8(bytes.subrange(0, i as int)));
        assert(rest@ == decode_utf8(bytes.subrange(i as int, bytes.len() as int)));
        assert(s@ == decode_utf8(bytes));
        assert(rest@ == sep@ + after@);
        assert(after.spec_bytes() =~= bytes.subrange(i + 1, bytes.len() as int));
    }
    (before, after)
}

/// Splits `s` at its last `c`: `Some((a, b))` with `s == a + [c] + b` and no `c` in
/// `b`, or `None` where `s` holds no `c`.
pub fn split_last<'a>(s: &'a str, c: char) -> (r: Option<(&'a str, &'a str)>)
    requires
        is_ascii_char(c),
    ensures
        match r {
            Some((a, b)) => s@ == a@ + seq![c] + b@ && last_index_of(s@, c) == a@.len()
                && forall|j: int| 0 <= j < b@.len() ==> b@[j] != c,
            None => last_index_of(s@, c) == -1 && forall|j: int| 0 <= j < s@.len() ==> s@[j] != c,
        },
{
    let bytes = s.as_bytes();
    match find_last_byte(bytes, c as u8) {
        Some(i) => {
            let (a, b) = split_around(s, c, i);
            proof {
                assert forall|j: int| 0 <= j < b@.len() implies b@[j] != c by {
                    if b@[j] == c {
                        lemma_char_gives_byte(b@, c, j);
                        let k = choose|k: int|
                            0 <= k < encode_utf8(b@).len() && #[trigger] encode_utf8(b@)[k]
                                == c as u8;
                        assert(bytes@[i + 1 + k] == c as u8);
                    }
                }
                lemma_last_index_split(a@, c, b@);
            }
            Some((a, b))
        },
        None => {
            proof {
                assert forall|j: int| 0 <= j < s@.len() implies s@[j] != c by {
                    if s@[j] == c {
                        lemma_char_gives_byte(s@, c, j);
                    }
                }
                lemma_absent_last_index(s@, c);
            }
            None
        },
    }
}

/// Splits `s` at its first `c`: `Some((a, b))` with `s == a + [c] + b` and no `c` in
/// `a`, or `None` where `s` holds no `c`.
pub fn split_first<'a>(s: &'a str, c: char) -> (r: Option<(&'a str, &'a str)>)
    requires
        is_ascii_char(c),
    ensures
        match r {
            Some((a, b)) => s@ == a@ + seq![c] + b@ && first_index_of(s@, c) == a@.len()
                && forall|j: int| 0 <= j < a@.len() ==> a@[j] != c,
            None => first_index_of(s@, c) == -1 && forall|j: int| 0 <= j < s@.len() ==> s@[j] != c,
        },
{
    let bytes = s.as_bytes();
    match find_first_byte(bytes, c as u8) {
        Some(i) => {
            let (a, b) = split_around(s, c, i);
            proof {
                assert forall|j: int| 0 <= j < a@.len() implies a@[j] != c by {
                    if a@[j] == c {
                        lemma_char_gives_byte(a@, c, j);
                        let k = choose|k: int|
                            0 <= k < encode_utf8(a@).len() && #[trigger] encode_utf8(a@)[k]
                                == c as u8;
                        assert(bytes@[k] == c as u8);
                    }
                }
                lemma_first_index_split(a@, c, b@);
            }
            Some((a, b))
        },
        None => {
            proof {
                assert forall|j: int| 0 <= j < s@.len() implies s@[j] != c by {
                    if s@[j] == c {
                        lemma_char_gives_byte(s@, c, j);
                    }
                }
                lemma_absent_first_index(s@, c);
            }
            None
        },
    }
}

} // verus!
