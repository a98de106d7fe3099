//! Compiled form of a hex prefix: an exact key, a bounded range, or an
//! open lower bound, over the byte order the store compares blobs in.
use vstd::prelude::*;

use crate::hexutil::{hex_decode, is_hex, spec_hex_decode, spec_is_hex};

verus! {

/// The compiled search for one hex prefix.
pub enum HexSearch {
    /// The prefix names a whole 32-byte key.
    Exact(Vec<u8>),
    /// Keys strictly between the two byte strings.
    Range(Vec<u8>, Vec<u8>),
    /// Keys strictly above the byte string; the prefix has no successor.
    LowerOnly(Vec<u8>),
}

/// The prefix padded with one `'0'` when its length is odd, so that it
/// decodes to whole bytes.
pub open spec fn spec_padded(s: Seq<char>) -> Seq<char> {
    if s.len() % 2 == 1 {
        s.push('0')
    } else {
        s
    }
}

/// The lower bound of a prefix search: the padded prefix, decoded.
pub open spec fn spec_hex_lower(s: Seq<char>) -> Seq<u8> {
    spec_hex_decode(spec_padded(s))
}

/// The byte string `b` with `step` added at its last position, carrying
/// leftwards; `None` when the carry runs off the front.
pub open spec fn spec_byte_succ(b: Seq<u8>, step: int) -> Option<Seq<u8>>
    decreases b.len(),
{
    if b.len() == 0 {
        None
    } else if b.last() + step <= 255 {
        Some(b.drop_last().push((b.last() + step) as u8))
    } else {
        match spec_byte_succ(b.drop_last(), 1) {
            None => None,
            Some(x) => Some(x.push((b.last() + step - 256) as u8)),
        }
    }
}

/// The step the upper bound adds at the last byte of the lower bound:
/// one whole byte position for an even prefix, one high nibble for an
/// odd one.
pub open spec fn spec_hex_step(s: Seq<char>) -> int {
    if s.len() % 2 == 1 {
        16
    } else {
        1
    }
}

/// The upper bound of a prefix search, when the prefix has a successor.
pub open spec fn spec_hex_upper(s: Seq<char>) -> Option<Seq<u8>> {
    spec_byte_succ(spec_hex_lower(s), spec_hex_step(s))
}

/// Mathematical image of a `HexSearch`.
pub enum HexSearchModel {
    Exact(Seq<u8>),
    Range(Seq<u8>, Seq<u8>),
    LowerOnly(Seq<u8>),
}

impl View for HexSearch {
    type V = HexSearchModel;

    open spec fn view(&self) -> HexSearchModel {
        match self {
            HexSearch::Exact(v) => HexSearchModel::Exact(v@),
            HexSearch::Range(lo, hi) => HexSearchModel::Range(lo@, hi@),
            HexSearch::LowerOnly(lo) => HexSearchModel::LowerOnly(lo@),
        }
    }
}

/// The compiled search for a prefix: the exact key for a full-length
/// prefix, otherwise the range from the padded prefix to its successor,
/// open-ended when the all-`f` prefix has none.
pub open spec fn spec_hex_search(p: Seq<char>) -> Option<HexSearchModel> {
    if !(spec_is_hex(p) && p.len() <= 64) {
        None
    } else if p.len() == 64 {
        Some(HexSearchModel::Exact(spec_hex_decode(p)))
    } else {
        match spec_hex_upper(p) {
            Some(u) => Some(HexSearchModel::Range(spec_hex_lower(p), u)),
            None => Some(HexSearchModel::LowerOnly(spec_hex_lower(p))),
        }
    }
}

fn copy_bytes(v: &Vec<u8>) -> (r: Vec<u8>)
    ensures
        r@ == v@,
{
    let mut r: Vec<u8> = Vec::new();
    let mut i: usize = 0;
    while i < v.len()
        invariant
            i <= v.len(),
            r@ =~= v@.take(i as int),
        decreases v.len() - i,
    {
        r.push(v[i]);
        proof {
            assert(r@ =~= v@.take(i as int + 1));
        }
        i += 1;
    }
    proof {
        assert(r@ =~= v@);
    }
    r
}

/// Compile a hex prefix into the search over stored keys: the exact
/// key for a full-length prefix, otherwise the strict byte range whose
/// interior is exactly the keys extending the prefix, with an open
/// upper end when the prefix admits no successor.
pub fn hex_range(s: &str) -> (r: Option<HexSearch>)
    ensures
        match r {
            None => spec_hex_search(s@) is None,
            Some(h) => spec_hex_search(s@) == Some(h@),
        },
{
    if !is_hex(s) || s.unicode_len() > 64 {
        return None;
    }
    if s.unicode_len() == 64 {
        match hex_decode(s) {
            Some(v) => {
                return Some(HexSearch::Exact(v));
            },
            None => {
                proof {
                    assert(false);
                }
                return None;
            },
        }
    }
    let odd = s.unicode_len() % 2 == 1;
    let mut padded = s.to_owned();
    if odd {
        padded.append("0");
        proof {
            reveal_strlit("0");
            assert(padded@ =~= spec_padded(s@));
        }
    } else {
        proof {
            assert(padded@ =~= spec_padded(s@));
        }
    }
    proof {
        assert forall|i: int|
            0 <= i < padded@.len() implies crate::hexutil::is_hex_digit(
            #[trigger] padded@[i],
        ) by {
            if i < s@.len() {
                assert(padded@[i] == s@[i]);
            } else {
                assert(padded@[i] == '0');
            }
        }
        assert(spec_is_hex(padded@));
        assert(padded@.len() % 2 == 0);
    }
    let base = match hex_decode(padded.as_str()) {
        Some(b) => b,
        None => {
            proof {
                assert(false);
            }
            return None;
        },
    };
    let ghost step0: int = spec_hex_step(s@);
    let mut upper = copy_bytes(&base);
    let mut step: u16 = if odd {
        16
    } else {
        1
    };
    let mut j: usize = upper.len();
    proof {
        assert(base@.take(j as int) =~= base@);
        match spec_byte_succ(base@, step0) {
            None => {},
            Some(x) => {
                assert(x + upper@.skip(j as int) =~= x);
            },
        }
        assert(spec_byte_succ(base@, step0) == spec_upper_partial(
            base@,
            upper@,
            j as int,
            step as int,
        ));
    }
    loop
        invariant
            j <= upper.len(),
            upper.len() == base.len(),
            step as int == (if j == base@.len() { step0 } else { 1 }),
            forall|k: int| 0 <= k < j ==> upper@[k] == base@[k],
            spec_byte_succ(base@, step0) == spec_upper_partial(base@, upper@, j as int, step as int),
            base@ == spec_hex_lower(s@),
            step0 == spec_hex_step(s@),
            spec_is_hex(s@) && s@.len() < 64,
        decreases j,
    {
        if j == 0 {
            proof {
                assert(base@.take(0) =~= Seq::<u8>::empty());
                assert(spec_byte_succ(base@, step0) is None);
            }
            return Some(HexSearch::LowerOnly(base));
        }
        j -= 1;
        let b: u16 = upper[j] as u16 + step;
        let ghost upper_pre = upper@;
        if b <= 255 {
            upper.set(j, b as u8);
            proof {
                lemma_upper_partial_step(base@, upper_pre, upper@, j as int, step as int, false);
                assert(base@.take(j as int) + upper@.skip(j as int) =~= upper@);
                assert(spec_hex_upper(s@) == Some(upper@));
            }
            return Some(HexSearch::Range(base, upper));
        }
        upper.set(j, (b - 256) as u8);
        proof {
            lemma_upper_partial_step(base@, upper_pre, upper@, j as int, step as int, true);
        }
        step = 1;
    }
}

/// What the carry loop still owes: the successor of the unprocessed
/// front of `base`, with the processed tail of `upper` appended.
pub open spec fn spec_upper_partial(base: Seq<u8>, upper: Seq<u8>, j: int, step: int) -> Option<
    Seq<u8>,
> {
    match spec_byte_succ(base.take(j), step) {
        None => None,
        Some(x) => Some(x + upper.skip(j)),
    }
}

proof fn lemma_upper_partial_step(
    base: Seq<u8>,
    upper_pre: Seq<u8>,
    upper_post: Seq<u8>,
    j: int,
    step: int,
    overflow: bool,
)
    requires
        0 <= j < base.len(),
        upper_pre.len() == base.len(),
        upper_post.len() == base.len(),
        upper_pre[j] == base[j],
        overflow == (base[j] + step > 255),
        !overflow ==> upper_post == upper_pre.update(j, (base[j] + step) as u8),
        overflow ==> upper_post == upper_pre.update(j, (base[j] + step - 256) as u8),
        forall|k: int| j < k < upper_pre.len() ==> upper_post[k] == upper_pre[k],
    ensures
        !overflow ==> spec_upper_partial(base, upper_pre, j + 1, step) == Some(
            base.take(j) + upper_post.skip(j),
        ),
        overflow ==> spec_upper_partial(base, upper_pre, j + 1, step) == spec_upper_partial(
            base,
            upper_post,
            j,
            1,
        ),
{
    let front = base.take(j + 1);
    assert(front.last() == base[j]);
    assert(front.drop_last() =~= base.take(j));
    if !overflow {
        assert(spec_byte_succ(front, step) == Some(base.take(j).push((base[j] + step) as u8)));
        assert(base.take(j).push((base[j] + step) as u8) + upper_pre.skip(j + 1) =~= base.take(j)
            + upper_post.skip(j));
    } else {
        assert(spec_byte_succ(front, step) == match spec_byte_succ(base.take(j), 1) {
            None => None::<Seq<u8>>,
            Some(x) => Some(x.push((base[j] + step - 256) as u8)),
        });
        match spec_byte_succ(base.take(j), 1) {
            None => {},
            Some(x) => {
                assert(x.push((base[j] + step - 256) as u8) + upper_pre.skip(j + 1) =~= x
                    + upper_post.skip(j));
            },
        }
    }
}

} // verus!

verus! {

/// Strict lexicographic order on byte strings: the order the store
/// compares key blobs in (bytewise, a proper prefix before its
/// extensions).
pub open spec fn spec_bytes_lt(a: Seq<u8>, b: Seq<u8>) -> bool
    decreases a.len() + b.len(),
{
    if b.len() == 0 {
        false
    } else if a.len() == 0 {
        true
    } else {
        a.first() < b.first() || (a.first() == b.first() && spec_bytes_lt(
            a.drop_first(),
            b.drop_first(),
        ))
    }
}

/// Equal-length byte strings with equal fronts and equal last bytes are
/// equal.
proof fn lemma_eq_from_back(a: Seq<u8>, b: Seq<u8>)
    requires
        a.len() == b.len(),
        a.len() >= 1,
        a.drop_last() == b.drop_last(),
        a.last() == b.last(),
    ensures
        a == b,
{
    assert forall|i: int| 0 <= i < a.len() implies a[i] == b[i] by {
        if i < a.len() - 1 {
            assert(a.drop_last()[i] == a[i]);
            assert(b.drop_last()[i] == b[i]);
        }
    }
    assert(a =~= b);
}

/// Equal-length byte strings with equal first bytes and equal tails are
/// equal.
proof fn lemma_eq_from_front(a: Seq<u8>, b: Seq<u8>)
    requires
        a.len() == b.len(),
        a.len() >= 1,
        a.first() == b.first(),
        a.drop_first() == b.drop_first(),
    ensures
        a == b,
{
    assert forall|i: int| 0 <= i < a.len() implies a[i] == b[i] by {
        if i > 0 {
            assert(a.drop_first()[i - 1] == a[i]);
            assert(b.drop_first()[i - 1] == b[i]);
        }
    }
    assert(a =~= b);
}

/// The successor keeps the length.
proof fn lemma_succ_len(b: Seq<u8>, step: int)
    ensures
        spec_byte_succ(b, step) is Some ==> spec_byte_succ(b, step).unwrap().len() == b.len(),
    decreases b.len(),
{
    if b.len() > 0 {
        lemma_succ_len(b.drop_last(), 1);
    }
}

/// Equal-length byte strings compare back to front: strictly below
/// exactly when the fronts are below or equal with a smaller last byte.
proof fn lemma_lt_back(a: Seq<u8>, b: Seq<u8>)
    requires
        a.len() == b.len(),
        a.len() >= 1,
    ensures
        spec_bytes_lt(a, b) == (spec_bytes_lt(a.drop_last(), b.drop_last()) || (a.drop_last()
            == b.drop_last() && a.last() < b.last())),
    decreases a.len(),
{
    if a.len() == 1 {
        assert(a.drop_last() =~= Seq::<u8>::empty());
        assert(b.drop_last() =~= Seq::<u8>::empty());
        assert(a.last() == a.first());
        assert(b.last() == b.first());
        assert(spec_bytes_lt(a, b) == (a.first() < b.first() || (a.first() == b.first()
            && spec_bytes_lt(a.drop_first(), b.drop_first()))));
        assert(a.drop_first() =~= Seq::<u8>::empty());
        assert(b.drop_first() =~= Seq::<u8>::empty());
        assert(!spec_bytes_lt(Seq::<u8>::empty(), Seq::<u8>::empty()));
    } else {
        lemma_lt_back(a.drop_first(), b.drop_first());
        assert(a.drop_first().drop_last() =~= a.drop_last().drop_first());
        assert(b.drop_first().drop_last() =~= b.drop_last().drop_first());
        assert(a.drop_first().last() == a.last());
        assert(b.drop_first().last() == b.last());
        assert(a.drop_last().first() == a.first());
        assert(b.drop_last().first() == b.first());
        assert(spec_bytes_lt(a, b) == (a.first() < b.first() || (a.first() == b.first()
            && spec_bytes_lt(a.drop_first(), b.drop_first()))));
        assert(spec_bytes_lt(a.drop_last(), b.drop_last()) == (a.first() < b.first() || (a.first()
            == b.first() && spec_bytes_lt(a.drop_last().drop_first(), b.drop_last().drop_first()))));
        assert((a.drop_last() == b.drop_last()) == (a.first() == b.first() && a.drop_last().drop_first()
            == b.drop_last().drop_first())) by {
            if a.first() == b.first() && a.drop_last().drop_first() == b.drop_last().drop_first() {
                lemma_eq_from_front(a.drop_last(), b.drop_last());
            }
        }
    }
}

/// Equal-length byte strings are ordered or equal, one way only.
proof fn lemma_lt_trichotomy(a: Seq<u8>, b: Seq<u8>)
    requires
        a.len() == b.len(),
    ensures
        spec_bytes_lt(a, b) || a == b || spec_bytes_lt(b, a),
        spec_bytes_lt(a, b) ==> !spec_bytes_lt(b, a) && a != b,
        spec_bytes_lt(b, a) ==> a != b,
    decreases a.len(),
{
    if a.len() == 0 {
        assert(a =~= b);
    } else {
        lemma_lt_trichotomy(a.drop_first(), b.drop_first());
        if a.first() == b.first() && a.drop_first() == b.drop_first() {
            lemma_eq_from_front(a, b);
        }
        if a == b {
            assert(a.first() == b.first() && a.drop_first() == b.drop_first());
        }
    }
}

/// Comparison against a shorter string looks only at its length's worth
/// of the longer one: below it exactly when the cut equals or exceeds
/// it, above it exactly when the cut is above it.
proof fn lemma_lt_prefix(a: Seq<u8>, k: Seq<u8>)
    requires
        a.len() < k.len(),
    ensures
        spec_bytes_lt(a, k) == (k.take(a.len() as int) == a || spec_bytes_lt(
            a,
            k.take(a.len() as int),
        )),
        spec_bytes_lt(k, a) == spec_bytes_lt(k.take(a.len() as int), a),
    decreases a.len(),
{
    if a.len() == 0 {
        assert(k.take(0) =~= Seq::<u8>::empty());
        assert(spec_bytes_lt(a, k));
        assert(k.take(0) == a);
        assert(!spec_bytes_lt(k, a));
        assert(!spec_bytes_lt(k.take(0), a));
    } else {
        lemma_lt_prefix(a.drop_first(), k.drop_first());
        assert(k.take(a.len() as int).first() == k.first());
        assert(k.take(a.len() as int).drop_first() =~= k.drop_first().take(a.len() - 1));
        assert(spec_bytes_lt(a, k) == (a.first() < k.first() || (a.first() == k.first()
            && spec_bytes_lt(a.drop_first(), k.drop_first()))));
        assert(spec_bytes_lt(a, k.take(a.len() as int)) == (a.first() < k.first() || (a.first()
            == k.first() && spec_bytes_lt(a.drop_first(), k.drop_first().take(a.len() - 1)))));
        assert(spec_bytes_lt(k, a) == (k.first() < a.first() || (k.first() == a.first()
            && spec_bytes_lt(k.drop_first(), a.drop_first()))));
        assert(spec_bytes_lt(k.take(a.len() as int), a) == (k.first() < a.first() || (k.first()
            == a.first() && spec_bytes_lt(k.drop_first().take(a.len() - 1), a.drop_first()))));
        assert((k.take(a.len() as int) == a) == (k.first() == a.first() && k.drop_first().take(
            a.len() - 1,
        ) == a.drop_first())) by {
            if k.first() == a.first() && k.drop_first().take(a.len() - 1) == a.drop_first() {
                lemma_eq_from_front(k.take(a.len() as int), a);
            } else {
                if k.take(a.len() as int) == a {
                    assert(k.take(a.len() as int).first() == a.first());
                    assert(k.take(a.len() as int).drop_first() =~= a.drop_first());
                }
            }
        }
    }
}

/// The byte successor is the least larger string: an equal-length
/// string is strictly below the successor exactly when it does not
/// exceed the base; a base with no successor is the largest string of
/// its length.
proof fn lemma_succ_order(b: Seq<u8>, x: Seq<u8>)
    requires
        b.len() == x.len(),
        b.len() >= 1,
    ensures
        match spec_byte_succ(b, 1) {
            Some(h) => spec_bytes_lt(x, h) == (x == b || spec_bytes_lt(x, b)),
            None => x == b || spec_bytes_lt(x, b),
        },
    decreases b.len(),
{
    lemma_lt_back(x, b);
    if b.last() + 1 <= 255 {
        let h = b.drop_last().push((b.last() + 1) as u8);
        assert(spec_byte_succ(b, 1) == Some(h));
        lemma_lt_back(x, h);
        assert(h.drop_last() =~= b.drop_last());
        assert(h.last() == b.last() + 1);
        lemma_lt_trichotomy(x.drop_last(), b.drop_last());
        if x.drop_last() == b.drop_last() && x.last() == b.last() {
            lemma_eq_from_back(x, b);
        }
        if x == b {
            assert(x.drop_last() == b.drop_last() && x.last() == b.last());
        }
    } else {
        assert(b.last() == 255);
        if b.len() == 1 {
            assert(b.drop_last() =~= Seq::<u8>::empty());
            assert(spec_byte_succ(b.drop_last(), 1) is None);
            assert(spec_byte_succ(b, 1) is None);
            if x != b {
                assert(x.drop_last() =~= b.drop_last());
                assert(x.last() != 255) by {
                    if x.last() == 255 {
                        lemma_eq_from_back(x, b);
                    }
                }
                assert(spec_bytes_lt(x, b));
            }
        } else {
            lemma_succ_order(b.drop_last(), x.drop_last());
            match spec_byte_succ(b.drop_last(), 1) {
                None => {
                    assert(spec_byte_succ(b, 1) is None);
                    if x != b {
                        if x.drop_last() == b.drop_last() {
                            assert(x.last() != b.last()) by {
                                if x.last() == b.last() {
                                    lemma_eq_from_back(x, b);
                                }
                            }
                            assert(x.last() < 255);
                            assert(spec_bytes_lt(x, b));
                        } else {
                            assert(spec_bytes_lt(x.drop_last(), b.drop_last()));
                            assert(spec_bytes_lt(x, b));
                        }
                    }
                },
                Some(hf) => {
                    let h = hf.push((b.last() + 1 - 256) as u8);
                    assert(spec_byte_succ(b, 1) == Some(h));
                    lemma_succ_len(b.drop_last(), 1);
                    assert(h.len() == b.len());
                    lemma_lt_back(x, h);
                    assert(h.drop_last() =~= hf);
                    assert(h.last() == 0);
                    // below h exactly when the front is at most the base's front
                    assert(spec_bytes_lt(x, h) == (spec_bytes_lt(x.drop_last(), hf) || (
                    x.drop_last() == hf && false)));
                    if x == b {
                        assert(x.drop_last() == b.drop_last());
                    }
                    if x.drop_last() == b.drop_last() && x.last() == b.last() {
                        lemma_eq_from_back(x, b);
                    }
                },
            }
        }
    }
}

} // verus!

verus! {

/// Between a bound and the same bound with a larger last byte lie
/// exactly the strings sharing the front, with a last byte in between.
proof fn lemma_interval(lo: Seq<u8>, w: u8, x: Seq<u8>)
    requires
        lo.len() == x.len(),
        lo.len() >= 1,
        lo.last() <= w,
    ensures
        ({
            let lof = lo.update(lo.len() - 1, w);
            ((x == lo || spec_bytes_lt(lo, x)) && (x == lof || spec_bytes_lt(x, lof))) <==> (
            x.drop_last() == lo.drop_last() && lo.last() <= x.last() <= w)
        }),
{
    let lof = lo.update(lo.len() - 1, w);
    assert(lof.drop_last() =~= lo.drop_last());
    assert(lof.last() == w);
    lemma_lt_back(lo, x);
    lemma_lt_back(x, lof);
    lemma_lt_trichotomy(lo.drop_last(), x.drop_last());
    if x == lo {
        assert(x.drop_last() == lo.drop_last() && x.last() == lo.last());
    }
    if x == lof {
        assert(x.drop_last() == lo.drop_last() && x.last() == w);
    }
    if x.drop_last() == lo.drop_last() && lo.last() <= x.last() <= w {
        if x.last() == lo.last() {
            lemma_eq_from_back(x, lo);
        }
        if x.last() == w {
            lemma_eq_from_back(x, lof);
        }
    }
}

/// A nibble's digit carries the nibble's value.
proof fn lemma_digit_of_nibble(n: int)
    requires
        0 <= n < 16,
    ensures
        crate::hexutil::is_lower_hex_digit(crate::hexutil::char_of_nibble(n)),
        crate::hexutil::hex_digit_value(crate::hexutil::char_of_nibble(n)) == n,
{
}

/// The hex rendering of a front is the front of the rendering.
proof fn lemma_encode_take(k: Seq<u8>, m: int)
    requires
        0 <= m <= k.len(),
    ensures
        crate::hexutil::spec_hex_encode(k).take(2 * m) == crate::hexutil::spec_hex_encode(
            k.take(m),
        ),
{
    let a = crate::hexutil::spec_hex_encode(k).take(2 * m);
    let b = crate::hexutil::spec_hex_encode(k.take(m));
    assert forall|i: int| 0 <= i < 2 * m implies a[i] == b[i] by {
        assert(0 <= i / 2 < m);
        assert(k.take(m)[i / 2] == k[i / 2]);
    }
    assert(a =~= b);
}

/// Hex rendering is injective on equal-length byte strings.
proof fn lemma_encode_injective(a: Seq<u8>, b: Seq<u8>)
    requires
        a.len() == b.len(),
        crate::hexutil::spec_hex_encode(a) == crate::hexutil::spec_hex_encode(b),
    ensures
        a == b,
{
    let ea = crate::hexutil::spec_hex_encode(a);
    let eb = crate::hexutil::spec_hex_encode(b);
    assert forall|i: int| 0 <= i < a.len() implies a[i] == b[i] by {
        assert(ea[2 * i] == eb[2 * i]);
        assert(ea[2 * i + 1] == eb[2 * i + 1]);
        assert((2 * i) / 2 == i && (2 * i + 1) / 2 == i);
        assert((2 * i) % 2 == 0 && (2 * i + 1) % 2 == 1);
        let ah = a[i] as int / 16;
        let al = a[i] as int % 16;
        let bh = b[i] as int / 16;
        let bl = b[i] as int % 16;
        assert(0 <= ah < 16 && 0 <= al < 16 && 0 <= bh < 16 && 0 <= bl < 16);
        lemma_digit_of_nibble(ah);
        lemma_digit_of_nibble(al);
        lemma_digit_of_nibble(bh);
        lemma_digit_of_nibble(bl);
        assert(ea[2 * i] == crate::hexutil::char_of_nibble(ah));
        assert(eb[2 * i] == crate::hexutil::char_of_nibble(bh));
        assert(ea[2 * i + 1] == crate::hexutil::char_of_nibble(al));
        assert(eb[2 * i + 1] == crate::hexutil::char_of_nibble(bl));
        assert(ah == bh && al == bl);
        assert(a[i] as int == ah * 16 + al && b[i] as int == bh * 16 + bl) by (nonlinear_arith)
            requires
                ah == a[i] as int / 16,
                al == a[i] as int % 16,
                bh == b[i] as int / 16,
                bl == b[i] as int % 16,
        ;
    }
    assert(a =~= b);
}

/// The step added at the last byte equals filling the last byte up and
/// stepping by one.
proof fn lemma_succ_step(lo: Seq<u8>, s: int)
    requires
        lo.len() >= 1,
        1 <= s,
        lo.last() + s - 1 <= 255,
    ensures
        spec_byte_succ(lo, s) == spec_byte_succ(lo.update(lo.len() - 1, (lo.last() + s - 1) as u8), 1),
{
    let lof = lo.update(lo.len() - 1, (lo.last() + s - 1) as u8);
    assert(lof.drop_last() =~= lo.drop_last());
    assert(lof.last() == lo.last() + s - 1);
    if lo.last() + s <= 255 {
        assert(spec_byte_succ(lo, s) == Some(lo.drop_last().push((lo.last() + s) as u8)));
        assert(spec_byte_succ(lof, 1) == Some(lof.drop_last().push((lof.last() + 1) as u8)));
    } else {
        assert(spec_byte_succ(lo, s) == (match spec_byte_succ(lo.drop_last(), 1) {
            None => None::<Seq<u8>>,
            Some(x) => Some(x.push((lo.last() + s - 256) as u8)),
        }));
        assert(spec_byte_succ(lof, 1) == (match spec_byte_succ(lof.drop_last(), 1) {
            None => None::<Seq<u8>>,
            Some(x) => Some(x.push((lof.last() + 1 - 256) as u8)),
        }));
    }
}

} // verus!

verus! {

/// Law: a compiled hex prefix search matches exactly the keys whose
/// lowercase hex form begins with the prefix: equality for an exact
/// search, the strict byte interval for a range, everything strictly
/// above the bound for an open search. Prefixes of sixty-three digits
/// are excepted: there the original's strict lower bound excludes the
/// one key that extends the prefix with a zero digit.
#[verifier::rlimit(100)]
#[verifier::spinoff_prover]
pub proof fn lemma_hex_search_matches(p: Seq<char>, k: Seq<u8>)
    requires
        crate::hexutil::spec_is_lower_hex(p),
        p.len() <= 64,
        p.len() != 63,
        k.len() == 32,
    ensures
        spec_hex_search(p) is Some,
        match spec_hex_search(p) {
            Some(HexSearchModel::Exact(e)) => (k == e) <==> crate::subscription::spec_starts_with(
                crate::hexutil::spec_hex_encode(k),
                p,
            ),
            Some(HexSearchModel::Range(lo, hi)) => (spec_bytes_lt(lo, k) && spec_bytes_lt(k, hi))
                <==> crate::subscription::spec_starts_with(crate::hexutil::spec_hex_encode(k), p),
            Some(HexSearchModel::LowerOnly(lo)) => spec_bytes_lt(lo, k)
                <==> crate::subscription::spec_starts_with(crate::hexutil::spec_hex_encode(k), p),
            None => true,
        },
{
    let enc = crate::hexutil::spec_hex_encode(k);
    assert(enc.len() == 64);
    assert forall|i: int|
        0 <= i < p.len() implies crate::hexutil::is_hex_digit(#[trigger] p[i]) by {
        assert(crate::hexutil::is_lower_hex_digit(p[i]));
    }
    assert(crate::hexutil::spec_is_hex(p));
    let l = p.len() as int;
    if l == 64 {
        let e = crate::hexutil::spec_hex_decode(p);
        assert(spec_hex_search(p) == Some(HexSearchModel::Exact(e)));
        crate::hexutil::lemma_hex_round_trip(p);
        assert(crate::hexutil::spec_hex_encode(e) == p);
        if k == e {
            assert(enc == p);
            assert(crate::subscription::spec_starts_with(enc, p));
        }
        if crate::subscription::spec_starts_with(enc, p) {
            assert(enc =~= p);
            lemma_encode_injective(k, e);
        }
    } else if l == 0 {
        let lo = spec_hex_lower(p);
        assert(spec_padded(p) == p);
        assert(lo =~= Seq::<u8>::empty());
        assert(spec_byte_succ(lo, spec_hex_step(p)) is None);
        assert(spec_hex_search(p) == Some(HexSearchModel::LowerOnly(lo)));
        assert(spec_bytes_lt(lo, k));
        assert(crate::subscription::spec_starts_with(enc, p));
    } else {
        let padded = spec_padded(p);
        assert forall|i: int|
            0 <= i < padded.len() implies crate::hexutil::is_lower_hex_digit(
            #[trigger] padded[i],
        ) by {
            if i < l {
                assert(padded[i] == p[i]);
            } else {
                assert(padded[i] == '0');
            }
        }
        assert(crate::hexutil::spec_is_lower_hex(padded));
        assert forall|i: int|
            0 <= i < padded.len() implies crate::hexutil::is_hex_digit(#[trigger] padded[i]) by {
            assert(crate::hexutil::is_lower_hex_digit(padded[i]));
        }
        assert(padded.len() % 2 == 0);
        assert(crate::hexutil::spec_hex_decodable(padded));
        crate::hexutil::lemma_hex_round_trip(padded);
        let lo = spec_hex_lower(p);
        assert(crate::hexutil::spec_hex_encode(lo) == padded);
        let n = lo.len() as int;
        assert(n == padded.len() / 2);
        assert(1 <= n <= 31);
        let m = n - 1;
        let s = spec_hex_step(p);
        // the value of the last bound byte
        assert(lo[m] as int == crate::hexutil::hex_digit_value(padded[2 * m]) * 16
            + crate::hexutil::hex_digit_value(padded[2 * m + 1]));
        assert(crate::hexutil::hex_digit_value(padded[2 * m]) < 16);
        assert(crate::hexutil::hex_digit_value(padded[2 * m + 1]) < 16);
        if l % 2 == 1 {
            assert(2 * m == l - 1);
            assert(padded[2 * m + 1] == '0');
            assert(crate::hexutil::hex_digit_value('0') == 0);
            assert(lo[m] as int == crate::hexutil::hex_digit_value(p[l - 1]) * 16);
        }
        let w = (lo.last() + s - 1) as u8;
        assert(lo.last() == lo[m]);
        assert(lo.last() + s - 1 <= 255);
        let lof = lo.update(m, w);
        lemma_succ_step(lo, s);
        assert(spec_hex_upper(p) == spec_byte_succ(lof, 1));
        let t = k.take(n);
        assert(t.len() == n);
        lemma_lt_prefix(lo, k);
        // whether k lies in the search's interior
        let inside: bool = match spec_byte_succ(lof, 1) {
            Some(hi) => spec_bytes_lt(lo, k) && spec_bytes_lt(k, hi),
            None => spec_bytes_lt(lo, k),
        };
        match spec_byte_succ(lof, 1) {
            Some(hi) => {
                assert(spec_hex_search(p) == Some(HexSearchModel::Range(lo, hi)));
                lemma_succ_len(lof, 1);
                assert(hi.len() == n);
                lemma_lt_prefix(hi, k);
                lemma_succ_order(lof, t);
                assert(spec_bytes_lt(k, hi) == spec_bytes_lt(t, hi));
                assert(spec_bytes_lt(t, hi) == (t == lof || spec_bytes_lt(t, lof)));
            },
            None => {
                assert(spec_hex_search(p) == Some(HexSearchModel::LowerOnly(lo)));
                lemma_succ_order(lof, t);
            },
        }
        assert(inside == ((t == lo || spec_bytes_lt(lo, t)) && (t == lof || spec_bytes_lt(
            t,
            lof,
        ))));
        lemma_interval(lo, w, t);
        assert(inside == (t.drop_last() == lo.drop_last() && lo.last() <= t.last() <= w));
        // the shared front, through the rendering
        lemma_encode_take(k, m);
        lemma_encode_take(lo, m);
        assert(t.drop_last() =~= k.take(m));
        assert(lo.drop_last() =~= lo.take(m));
        let front_eq = k.take(m) == lo.take(m);
        assert(front_eq ==> enc.take(2 * m) == padded.take(2 * m));
        if crate::hexutil::spec_hex_encode(k.take(m)) == crate::hexutil::spec_hex_encode(
            lo.take(m),
        ) {
            lemma_encode_injective(k.take(m), lo.take(m));
        }
        assert((enc.take(2 * m) == padded.take(2 * m)) ==> front_eq) by {
            if enc.take(2 * m) == padded.take(2 * m) {
                assert(crate::hexutil::spec_hex_encode(k.take(m)) == crate::hexutil::spec_hex_encode(
                    lo.take(m),
                ));
            }
        }
        // the last byte, through the rendering
        assert(t.last() == k[m]);
        if l % 2 == 0 {
            assert(s == 1 && w == lo.last());
            assert(2 * n == l);
            assert(inside == (t.drop_last() == lo.drop_last() && t.last() == lo.last()));
            if inside {
                lemma_eq_from_back(t, lo);
                assert(t == lo);
                lemma_encode_take(k, n);
                assert(enc.take(2 * n) == crate::hexutil::spec_hex_encode(t));
                assert(enc.take(l) == padded);
                assert(padded == p);
                assert forall|i: int| 0 <= i < l implies enc[i] == p[i] by {
                    assert(enc.take(l)[i] == enc[i]);
                }
                assert(crate::subscription::spec_starts_with(enc, p));
            }
            if crate::subscription::spec_starts_with(enc, p) {
                lemma_encode_take(k, n);
                assert(enc.take(l) =~= p);
                assert(crate::hexutil::spec_hex_encode(t) == padded);
                assert(crate::hexutil::spec_hex_encode(t) == crate::hexutil::spec_hex_encode(lo));
                lemma_encode_injective(t, lo);
                assert(t.drop_last() == lo.drop_last() && t.last() == lo.last());
                assert(inside);
            }
        } else {
            let hv = crate::hexutil::hex_digit_value(p[l - 1]) as int;
            assert(lo.last() as int == hv * 16);
            assert(w as int == hv * 16 + 15);
            let kh = k[m] as int / 16;
            assert(0 <= kh < 16);
            assert((lo.last() <= t.last() <= w) == (kh == hv)) by (nonlinear_arith)
                requires
                    lo.last() as int == hv * 16,
                    w as int == hv * 16 + 15,
                    t.last() == k[m],
                    kh == k[m] as int / 16,
                    0 <= k[m] <= 255,
                    0 <= hv < 16,
            ;
            // the final digit of the rendering carries the high nibble
            assert(2 * m == l - 1 && (l - 1) % 2 == 0 && (l - 1) / 2 == m);
            assert(enc[l - 1] == crate::hexutil::char_of_nibble(kh));
            lemma_digit_of_nibble(kh);
            assert((enc[l - 1] == p[l - 1]) == (kh == hv)) by {
                if enc[l - 1] == p[l - 1] {
                    assert(crate::hexutil::hex_digit_value(enc[l - 1]) == kh);
                }
                if kh == hv {
                    assert(crate::hexutil::char_of_nibble(hv) == p[l - 1]);
                }
            }
            // starts-with splits into the shared front and the last digit
            assert(crate::subscription::spec_starts_with(enc, p) == (enc.take(2 * m) == padded.take(
                2 * m,
            ) && enc[l - 1] == p[l - 1])) by {
                if crate::subscription::spec_starts_with(enc, p) {
                    assert forall|j: int|
                        0 <= j < 2 * m implies #[trigger] enc.take(2 * m)[j] == padded.take(
                        2 * m,
                    )[j] by {
                        assert(enc[j] == p[j]);
                        assert(padded[j] == p[j]);
                    }
                    assert(enc.take(2 * m) =~= padded.take(2 * m));
                }
                if enc.take(2 * m) == padded.take(2 * m) && enc[l - 1] == p[l - 1] {
                    assert forall|j: int| 0 <= j < l implies enc[j] == #[trigger] p[j] by {
                        if j < l - 1 {
                            assert(enc.take(2 * m)[j] == padded.take(2 * m)[j]);
                            assert(padded[j] == p[j]);
                        }
                    }
                }
            }
            assert(inside == crate::subscription::spec_starts_with(enc, p));
        }
    }
}

} // verus!
