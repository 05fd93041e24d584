use vstd::prelude::*;
use vstd::utf8::*;
use vstd::slice::*;

verus! {

/// The longest key component that can be followed by another one: its length
/// is written in two bytes.
pub const MAX_SEGMENT: usize = 0xFFFF;

/// The order in which the storage substrate walks its keys: byte by byte, a
/// proper prefix before its extensions.
pub open spec fn bytes_lt(a: Seq<u8>, b: Seq<u8>) -> bool
    decreases a.len(),
{
    if b.len() == 0 {
        false
    } else if a.len() == 0 {
        true
    } else if a[0] != b[0] {
        a[0] < b[0]
    } else {
        bytes_lt(a.drop_first(), b.drop_first())
    }
}

/// A key component in front of another one: its length in two bytes, most
/// significant first, then its bytes.
pub open spec fn segment(b: Seq<u8>) -> Seq<u8> {
    seq![(b.len() / 256) as u8, (b.len() % 256) as u8] + b
}

/// A rank as a key component: four bytes, most significant first.
pub open spec fn rank_bytes(r: u32) -> Seq<u8> {
    seq![
        (r / 0x100_0000) as u8,
        ((r / 0x1_0000) % 256) as u8,
        ((r / 0x100) % 256) as u8,
        (r % 256) as u8,
    ]
}

/// The bytes of a text as a key component.
pub open spec fn text_bytes(s: Seq<char>) -> Seq<u8> {
    encode_utf8(s)
}

/// Whether a text can be followed by another key component.
pub open spec fn fits_segment(s: Seq<char>) -> bool {
    text_bytes(s).len() <= MAX_SEGMENT
}

/// The key of a pair of texts, behind the index's own prefix.
pub open spec fn pair_key(first: Seq<char>, second: Seq<char>) -> Seq<u8> {
    segment(text_bytes(first)) + text_bytes(second)
}

/// What follows the first component in the key of a ranked entry.
pub open spec fn rank_suffix(rank: u32, id: Seq<char>) -> Seq<u8> {
    segment(rank_bytes(rank)) + text_bytes(id)
}

/// The key of a ranked entry, behind the index's own prefix.
pub open spec fn ranked_key(owner: Seq<char>, rank: u32, id: Seq<char>) -> Seq<u8> {
    segment(text_bytes(owner)) + rank_suffix(rank, id)
}

/// No key comes before itself.
pub proof fn lemma_bytes_lt_irreflexive(a: Seq<u8>)
    ensures
        !bytes_lt(a, a),
    decreases a.len(),
{
    if a.len() > 0 {
        lemma_bytes_lt_irreflexive(a.drop_first());
    }
}

/// The key order is transitive.
pub proof fn lemma_bytes_lt_transitive(a: Seq<u8>, b: Seq<u8>, c: Seq<u8>)
    requires
        bytes_lt(a, b),
        bytes_lt(b, c),
    ensures
        bytes_lt(a, c),
    decreases a.len(),
{
    if a.len() > 0 && a[0] == b[0] && b[0] == c[0] {
        lemma_bytes_lt_transitive(a.drop_first(), b.drop_first(), c.drop_first());
    }
}

/// Of two different keys one comes before the other.
pub proof fn lemma_bytes_lt_total(a: Seq<u8>, b: Seq<u8>)
    ensures
        a == b || bytes_lt(a, b) || bytes_lt(b, a),
    decreases a.len(),
{
    if a.len() == 0 || b.len() == 0 {
        if a.len() == 0 && b.len() == 0 {
            assert(a =~= b);
        }
    } else if a[0] == b[0] {
        lemma_bytes_lt_total(a.drop_first(), b.drop_first());
        if a.drop_first() == b.drop_first() {
            assert(a =~= seq![a[0]] + a.drop_first());
            assert(b =~= seq![b[0]] + b.drop_first());
        }
    }
}

/// Two keys with the same beginning are ordered as what follows it.
pub proof fn lemma_bytes_lt_behind_prefix(prefix: Seq<u8>, a: Seq<u8>, b: Seq<u8>)
    ensures
        bytes_lt(prefix + a, prefix + b) == bytes_lt(a, b),
    decreases prefix.len(),
{
    if prefix.len() == 0 {
        assert(prefix + a =~= a);
        assert(prefix + b =~= b);
    } else {
        let rest = prefix.drop_first();
        lemma_bytes_lt_behind_prefix(rest, a, b);
        assert((prefix + a).drop_first() =~= rest + a);
        assert((prefix + b).drop_first() =~= rest + b);
        assert((prefix + a)[0] == (prefix + b)[0]);
    }
}

/// No two keys come before each other.
pub proof fn lemma_bytes_lt_asymmetric(a: Seq<u8>, b: Seq<u8>)
    requires
        bytes_lt(a, b),
    ensures
        !bytes_lt(b, a),
{
    if bytes_lt(b, a) {
        lemma_bytes_lt_transitive(a, b, a);
        lemma_bytes_lt_irreflexive(a);
    }
}

/// Two texts with the same bytes are the same text.
pub proof fn lemma_text_bytes_injective(s: Seq<char>, t: Seq<char>)
    requires
        text_bytes(s) == text_bytes(t),
    ensures
        s == t,
{
    encode_utf8_decode_utf8(s);
    encode_utf8_decode_utf8(t);
}

/// Two ranks with the same bytes are the same rank.
pub proof fn lemma_rank_bytes_injective(r: u32, q: u32)
    requires
        rank_bytes(r) == rank_bytes(q),
    ensures
        r == q,
{
    let a = rank_bytes(r);
    let b = rank_bytes(q);
    assert(a[0] == b[0] && a[1] == b[1] && a[2] == b[2] && a[3] == b[3]);
    assert(r == (r / 0x100_0000) * 0x100_0000 + ((r / 0x1_0000) % 256) * 0x1_0000 + ((r / 0x100) % 256)
        * 0x100 + r % 256) by (nonlinear_arith)
        requires
            0 <= r,
    ;
    assert(q == (q / 0x100_0000) * 0x100_0000 + ((q / 0x1_0000) % 256) * 0x1_0000 + ((q / 0x100) % 256)
        * 0x100 + q % 256) by (nonlinear_arith)
        requires
            0 <= q,
    ;
}

/// A component with its length in front can be told apart from what follows it.
pub proof fn lemma_segment_injective(a: Seq<u8>, x: Seq<u8>, b: Seq<u8>, y: Seq<u8>)
    requires
        a.len() <= MAX_SEGMENT,
        b.len() <= MAX_SEGMENT,
        segment(a) + x == segment(b) + y,
    ensures
        a == b,
        x == y,
{
    let l = segment(a) + x;
    let r = segment(b) + y;
    assert(l[0] == (a.len() / 256) as u8 && l[1] == (a.len() % 256) as u8);
    assert(r[0] == (b.len() / 256) as u8 && r[1] == (b.len() % 256) as u8);
    assert(a.len() == b.len());
    assert(a =~= l.subrange(2, 2 + a.len() as int));
    assert(b =~= r.subrange(2, 2 + b.len() as int));
    assert(x =~= l.subrange(2 + a.len() as int, l.len() as int));
    assert(y =~= r.subrange(2 + b.len() as int, r.len() as int));
}

/// Two pairs with the same key are the same pair.
pub proof fn lemma_pair_key_injective(a: (Seq<char>, Seq<char>), b: (Seq<char>, Seq<char>))
    requires
        fits_segment(a.0),
        fits_segment(b.0),
        pair_key(a.0, a.1) == pair_key(b.0, b.1),
    ensures
        a == b,
{
    lemma_segment_injective(text_bytes(a.0), text_bytes(a.1), text_bytes(b.0), text_bytes(b.1));
    lemma_text_bytes_injective(a.0, b.0);
    lemma_text_bytes_injective(a.1, b.1);
}

/// Two ranked entries with the same suffix have the same rank and id.
pub proof fn lemma_rank_suffix_injective(a: (u32, Seq<char>), b: (u32, Seq<char>))
    requires
        rank_suffix(a.0, a.1) == rank_suffix(b.0, b.1),
    ensures
        a == b,
{
    lemma_segment_injective(rank_bytes(a.0), text_bytes(a.1), rank_bytes(b.0), text_bytes(b.1));
    lemma_rank_bytes_injective(a.0, b.0);
    lemma_text_bytes_injective(a.1, b.1);
}

/// Two ranked entries with the same key are the same entry.
pub proof fn lemma_ranked_key_injective(a: (Seq<char>, u32, Seq<char>), b: (Seq<char>, u32, Seq<char>))
    requires
        fits_segment(a.0),
        fits_segment(b.0),
        ranked_key(a.0, a.1, a.2) == ranked_key(b.0, b.1, b.2),
    ensures
        a == b,
{
    lemma_segment_injective(
        text_bytes(a.0),
        rank_suffix(a.1, a.2),
        text_bytes(b.0),
        rank_suffix(b.1, b.2),
    );
    lemma_text_bytes_injective(a.0, b.0);
    lemma_rank_suffix_injective((a.1, a.2), (b.1, b.2));
}

/// The length that the first two bytes of a key declare.
pub open spec fn declared_len(raw: Seq<u8>) -> int {
    raw[0] as int * 256 + raw[1] as int
}

/// Whether a key starts with a component that has its length in front.
pub open spec fn is_segmented(raw: Seq<u8>) -> bool {
    raw.len() >= 2 && raw.len() >= 2 + declared_len(raw)
}

/// The first component of such a key.
pub open spec fn segment_head(raw: Seq<u8>) -> Seq<u8> {
    raw.subrange(2, 2 + declared_len(raw))
}

/// What follows the first component of such a key.
pub open spec fn segment_rest(raw: Seq<u8>) -> Seq<u8> {
    raw.subrange(2 + declared_len(raw), raw.len() as int)
}

/// A key that starts with a component is that component and the rest.
pub proof fn lemma_segment_joins(raw: Seq<u8>)
    requires
        is_segmented(raw),
    ensures
        segment_head(raw).len() <= MAX_SEGMENT,
        raw == segment(segment_head(raw)) + segment_rest(raw),
{
    let n = declared_len(raw);
    assert(raw =~= segment(segment_head(raw)) + segment_rest(raw));
}

/// A component in front of a key can be read back from it.
pub proof fn lemma_segment_splits(a: Seq<u8>, x: Seq<u8>)
    requires
        a.len() <= MAX_SEGMENT,
    ensures
        is_segmented(segment(a) + x),
        segment_head(segment(a) + x) == a,
        segment_rest(segment(a) + x) == x,
{
    let raw = segment(a) + x;
    assert(raw[0] == (a.len() / 256) as u8 && raw[1] == (a.len() % 256) as u8);
    assert(declared_len(raw) == a.len());
    assert(segment_head(raw) =~= a);
    assert(segment_rest(raw) =~= x);
}

/// `String::from_utf8`: the text that the bytes encode, or nothing where they
/// are not valid UTF-8.
#[verifier::external_body]
fn string_from_utf8(bytes: Vec<u8>) -> (r: Option<String>)
    ensures
        match r {
            Some(s) => text_bytes(s@) == bytes@,
            None => !valid_utf8(bytes@),
        },
{
    String::from_utf8(bytes).ok()
}

/// Reads a text back from its bytes.
pub fn decode_text(raw: Vec<u8>) -> (r: Option<String>)
    ensures
        match r {
            Some(s) => text_bytes(s@) == raw@,
            None => forall|s: Seq<char>| raw@ != text_bytes(s),
        },
{
    let r = string_from_utf8(raw);
    proof {
        if r is None {
            assert forall|s: Seq<char>| raw@ != text_bytes(s) by {
                encode_utf8_valid_utf8(s);
            }
        }
    }
    r
}

/// Reads a rank back from its four bytes.
pub fn decode_rank(raw: &[u8]) -> (r: Option<u32>)
    ensures
        match r {
            Some(rank) => rank_bytes(rank) == raw@,
            None => raw@.len() != 4,
        },
{
    if raw.len() != 4 {
        return None;
    }
    let b0: u32 = raw[0] as u32;
    let b1: u32 = raw[1] as u32;
    let b2: u32 = raw[2] as u32;
    let b3: u32 = raw[3] as u32;
    let rank: u32 = b0 * 0x100_0000 + b1 * 0x1_0000 + b2 * 0x100 + b3;
    proof {
        assert(rank / 0x100_0000 == b0 && (rank / 0x1_0000) % 256 == b1 && (rank / 0x100) % 256 == b2
            && rank % 256 == b3) by (nonlinear_arith)
            requires
                rank == b0 * 0x100_0000 + b1 * 0x1_0000 + b2 * 0x100 + b3,
                0 <= b0 < 256,
                0 <= b1 < 256,
                0 <= b2 < 256,
                0 <= b3 < 256,
        ;
        assert(rank_bytes(rank) =~= raw@);
    }
    Some(rank)
}

/// Splits a key into its first component and the rest.
pub fn split_segment(raw: &[u8]) -> (r: Option<(Vec<u8>, Vec<u8>)>)
    ensures
        match r {
            Some((head, rest)) => is_segmented(raw@) && head@ == segment_head(raw@) && rest@
                == segment_rest(raw@),
            None => !is_segmented(raw@),
        },
{
    if raw.len() < 2 {
        return None;
    }
    let n: usize = (raw[0] as usize) * 256 + (raw[1] as usize);
    if raw.len() - 2 < n {
        return None;
    }
    let head = slice_to_vec(slice_subrange(raw, 2, 2 + n));
    let rest = slice_to_vec(slice_subrange(raw, 2 + n, raw.len()));
    Some((head, rest))
}

/// Reads rank and id back from what follows the first component of a ranked
/// entry's key.
pub fn decode_rank_suffix(raw: &[u8]) -> (r: Option<(u32, String)>)
    ensures
        match r {
            Some((rank, id)) => raw@ == rank_suffix(rank, id@),
            None => forall|rank: u32, id: Seq<char>| raw@ != rank_suffix(rank, id),
        },
{
    proof {
        assert forall|rank: u32, id: Seq<char>| raw@ == rank_suffix(rank, id) implies is_segmented(raw@)
            && segment_head(raw@) == rank_bytes(rank) && segment_rest(raw@) == text_bytes(id) by {
            lemma_segment_splits(rank_bytes(rank), text_bytes(id));
        }
    }
    match split_segment(raw) {
        None => None,
        Some((head, rest)) => {
            proof {
                lemma_segment_joins(raw@);
            }
            match decode_rank(head.as_slice()) {
                None => None,
                Some(rank) => match decode_text(rest) {
                    None => None,
                    Some(id) => Some((rank, id)),
                },
            }
        },
    }
}

/// Reads a pair of texts back from its key.
pub fn decode_pair_key(raw: &[u8]) -> (r: Option<(String, String)>)
    ensures
        match r {
            Some((first, second)) => fits_segment(first@) && raw@ == pair_key(first@, second@),
            None => forall|first: Seq<char>, second: Seq<char>|
                fits_segment(first) ==> raw@ != pair_key(first, second),
        },
{
    proof {
        assert forall|first: Seq<char>, second: Seq<char>|
            fits_segment(first) && raw@ == pair_key(first, second) implies is_segmented(raw@)
            && segment_head(raw@) == text_bytes(first) && segment_rest(raw@) == text_bytes(second) by {
            lemma_segment_splits(text_bytes(first), text_bytes(second));
        }
    }
    match split_segment(raw) {
        None => None,
        Some((head, rest)) => {
            proof {
                lemma_segment_joins(raw@);
            }
            match decode_text(head) {
                None => None,
                Some(first) => match decode_text(rest) {
                    None => None,
                    Some(second) => Some((first, second)),
                },
            }
        },
    }
}

/// Reads a ranked entry back from its key.
pub fn decode_ranked_key(raw: &[u8]) -> (r: Option<(String, u32, String)>)
    ensures
        match r {
            Some((owner, rank, id)) => fits_segment(owner@) && raw@ == ranked_key(owner@, rank, id@),
            None => forall|owner: Seq<char>, rank: u32, id: Seq<char>|
                fits_segment(owner) ==> raw@ != ranked_key(owner, rank, id),
        },
{
    proof {
        assert forall|owner: Seq<char>, rank: u32, id: Seq<char>|
            fits_segment(owner) && raw@ == ranked_key(owner, rank, id) implies is_segmented(raw@)
            && segment_head(raw@) == text_bytes(owner) && segment_rest(raw@) == rank_suffix(rank, id) by {
            lemma_segment_splits(text_bytes(owner), rank_suffix(rank, id));
        }
    }
    match split_segment(raw) {
        None => None,
        Some((head, rest)) => {
            proof {
                lemma_segment_joins(raw@);
            }
            match decode_text(head) {
                None => None,
                Some(owner) => match decode_rank_suffix(rest.as_slice()) {
                    None => None,
                    Some((rank, id)) => Some((owner, rank, id)),
                },
            }
        },
    }
}

} // verus!
