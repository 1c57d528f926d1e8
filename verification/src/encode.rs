//! A writer of DER items: the identifier octet, the length in the fewest
//! octets, then the content, which for a `SEQUENCE` or `SET` is the writing
//! of its items one after another.
use crate::der::{
    canonical_header, is_constructed_tag, lemma_pow256_8, lemma_tlvs_view_index, max_alloc, pow256,
    readable, spec_be, spec_first, spec_header, spec_parse_tlvs, spec_tag, spec_tag_class,
    strict_first, strict_items, tlv_view, tlvs_view, FirstOutcome, HeaderOutcome, ParseOutcome,
    SpecTlv, SpecValue, Tag, TagClass, Tlv, Value,
};
use vstd::prelude::*;

verus! {

// ---------------------------------------------------------------------------
// The octets of an item
// ---------------------------------------------------------------------------

/// The number of a tag in the low six bits of an identifier octet; the
/// constructed ones carry their flag.
pub open spec fn tag_code(t: Tag) -> nat {
    match t {
        Tag::Integer => 0x02,
        Tag::BitString => 0x03,
        Tag::OctetString => 0x04,
        Tag::Null => 0x05,
        Tag::ObjectIdentifier => 0x06,
        Tag::UTF8String => 0x0c,
        Tag::Sequence => 0x30,
        Tag::SetOf => 0x31,
        Tag::PrintableString => 0x13,
        Tag::IA5String => 0x16,
        Tag::UTCTime => 0x17,
        Tag::GeneralizedTime => 0x18,
        Tag::Other(n) => (n % 64) as nat,
    }
}

pub open spec fn class_code(c: TagClass) -> nat {
    match c {
        TagClass::Universal => 0,
        TagClass::Application => 1,
        TagClass::ContextSpecific => 2,
        TagClass::Private => 3,
    }
}

/// The identifier octet: the class in the top two bits, the tag below.
pub open spec fn spec_identifier(c: TagClass, t: Tag) -> u8 {
    (class_code(c) * 64 + tag_code(t)) as u8
}

/// A tag that fits a one-octet identifier: an `Other` tag is a number below
/// 64 (the constructed flag included) that no named tag has, and whose low
/// five bits are not 31, which marks the identifiers of several octets.
pub open spec fn writable_tag(t: Tag) -> bool {
    match t {
        Tag::Other(n) => n < 64 && n % 32 != 31 && spec_tag(n) == Tag::Other(n),
        _ => true,
    }
}

/// The base-256 digits of `n`, the lowest first, without leading zeros.
pub open spec fn le_digits(n: nat) -> Seq<u8>
    decreases n,
{
    if n == 0 {
        Seq::empty()
    } else {
        seq![(n % 256) as u8] + le_digits(n / 256)
    }
}

/// The length octets of a content of `n` octets: one octet below 128, else
/// `0x80` plus the count of the octets of `n`, then those octets, the
/// highest first.
pub open spec fn spec_len_octets(n: nat) -> Seq<u8> {
    if n < 128 {
        seq![n as u8]
    } else {
        seq![(0x80 + le_digits(n).len()) as u8] + le_digits(n).reverse()
    }
}

pub open spec fn spec_content_octets(v: SpecValue) -> Seq<u8>
    decreases v,
{
    match v {
        SpecValue::Primitive(c) => c,
        SpecValue::Nested(items) => spec_items_octets(items),
    }
}

/// The octets of an item.
pub open spec fn spec_item_octets(t: SpecTlv) -> Seq<u8>
    decreases t,
{
    let c = spec_content_octets(t.value);
    seq![spec_identifier(t.tag_class, t.tag)] + spec_len_octets(c.len()) + c
}

/// The octets of items written one after another.
pub open spec fn spec_items_octets(s: Seq<SpecTlv>) -> Seq<u8>
    decreases s,
{
    if s.len() == 0 {
        Seq::empty()
    } else {
        proof {
            assert(decreases_to!(s => s.subrange(0, s.len() - 1)));
        }
        spec_items_octets(s.subrange(0, s.len() - 1)) + spec_item_octets(s[s.len() - 1])
    }
}

/// An item that the writer and the reader agree on: every tag fits an
/// identifier octet, every length is that of the content and can be
/// allocated, and exactly the `SEQUENCE` and `SET` items nest items, at least
/// one each.
pub open spec fn well_formed(t: SpecTlv) -> bool
    decreases t,
{
    &&& writable_tag(t.tag)
    &&& t.length == spec_content_octets(t.value).len()
    &&& t.length <= max_alloc()
    &&& match t.value {
        SpecValue::Primitive(_) => !is_constructed_tag(t.tag),
        SpecValue::Nested(items) => {
            proof {
                assert(decreases_to!(t => items)) by {
                    assert(decreases_to!(t => t.value));
                    assert(decreases_to!(t.value => t.value->Nested_0));
                };
            }
            &&& is_constructed_tag(t.tag)
            &&& items.len() > 0
            &&& all_well_formed(items)
        },
    }
}

pub open spec fn all_well_formed(s: Seq<SpecTlv>) -> bool
    decreases s,
{
    if s.len() == 0 {
        true
    } else {
        well_formed(s[0]) && all_well_formed(s.subrange(1, s.len() as int))
    }
}

/// The shape of a well-formed item, whatever its size: tags that fit,
/// lengths that are those of the contents, and non-empty nesting in exactly
/// the `SEQUENCE` and `SET` items.
pub open spec fn tidy(t: SpecTlv) -> bool
    decreases t,
{
    &&& writable_tag(t.tag)
    &&& t.length == spec_content_octets(t.value).len()
    &&& match t.value {
        SpecValue::Primitive(_) => !is_constructed_tag(t.tag),
        SpecValue::Nested(items) => {
            proof {
                assert(decreases_to!(t => items)) by {
                    assert(decreases_to!(t => t.value));
                    assert(decreases_to!(t.value => t.value->Nested_0));
                };
            }
            &&& is_constructed_tag(t.tag)
            &&& items.len() > 0
            &&& all_tidy(items)
        },
    }
}

pub open spec fn all_tidy(s: Seq<SpecTlv>) -> bool
    decreases s,
{
    if s.len() == 0 {
        true
    } else {
        tidy(s[0]) && all_tidy(s.subrange(1, s.len() as int))
    }
}

// ---------------------------------------------------------------------------
// Lemmas
// ---------------------------------------------------------------------------

proof fn lemma_le_digits_len(n: nat, k: nat)
    requires
        n < pow256(k),
    ensures
        le_digits(n).len() <= k,
    decreases k,
{
    if n > 0 {
        assert(k > 0);
        assert(n / 256 < pow256((k - 1) as nat)) by (nonlinear_arith)
            requires
                n < pow256((k - 1) as nat) * 256,
        ;
        lemma_le_digits_len(n / 256, (k - 1) as nat);
    }
}

proof fn lemma_items_octets_step(s: Seq<SpecTlv>, i: int)
    requires
        0 <= i < s.len(),
    ensures
        spec_items_octets(s.take(i + 1)) == spec_items_octets(s.take(i)) + spec_item_octets(s[i]),
{
    assert(s.take(i + 1).subrange(0, i) =~= s.take(i));
}

// ---------------------------------------------------------------------------
// What the reader makes of the writer's octets
// ---------------------------------------------------------------------------

proof fn lemma_items_octets_cons(s: Seq<SpecTlv>)
    requires
        s.len() > 0,
    ensures
        spec_items_octets(s) == spec_item_octets(s[0]) + spec_items_octets(s.subrange(1, s.len() as int)),
    decreases s.len(),
{
    let n = s.len() as int;
    let tail = s.subrange(1, n);
    if n == 1 {
        let e = s.subrange(0, 0);
        assert(e.len() == 0);
        assert(spec_items_octets(e) == Seq::<u8>::empty());
        assert(tail.len() == 0);
        assert(spec_items_octets(tail) == Seq::<u8>::empty());
        assert(spec_items_octets(s) == spec_items_octets(e) + spec_item_octets(s[0]));
        assert(spec_items_octets(s) =~= spec_item_octets(s[0]));
        assert(spec_item_octets(s[0]) + Seq::<u8>::empty() =~= spec_item_octets(s[0]));
    } else {
        let p = s.subrange(0, n - 1);
        lemma_items_octets_cons(p);
        assert(p[0] == s[0]);
        assert(tail.subrange(0, tail.len() - 1) =~= p.subrange(1, p.len() as int));
        assert(tail[tail.len() - 1] == s[n - 1]);
        assert(spec_items_octets(tail) == spec_items_octets(p.subrange(1, p.len() as int))
            + spec_item_octets(s[n - 1]));
        assert(spec_items_octets(s) =~= spec_item_octets(s[0]) + spec_items_octets(tail));
    }
}

proof fn lemma_be_of_digits(n: nat)
    ensures
        spec_be(le_digits(n).reverse()) == n,
    decreases n,
{
    if n > 0 {
        lemma_be_of_digits(n / 256);
        let r = le_digits(n / 256).reverse();
        let b = (n % 256) as u8;
        assert(le_digits(n).reverse() =~= r.push(b));
        assert(r.push(b).subrange(0, r.len() as int) =~= r);
        assert(spec_be(r.push(b)) == spec_be(r) * 256 + b as nat);
        assert((n / 256) * 256 + n % 256 == n) by (nonlinear_arith);
    }
}

/// The identifier octet is read back as the class and the tag it was
/// written for.
proof fn lemma_identifier(c: TagClass, t: Tag)
    requires
        writable_tag(t),
    ensures
        spec_tag_class(spec_identifier(c, t)) == c,
        spec_tag(spec_identifier(c, t)) == t,
{
    let cc = class_code(c);
    let tc = tag_code(t);
    assert(tc < 64);
    assert(cc < 4);
    let b = spec_identifier(c, t);
    assert(b == cc * 64 + tc);
    assert(b / 64 == cc && b % 64 == tc) by (nonlinear_arith)
        requires
            b == cc * 64 + tc,
            tc < 64,
    ;
}

/// The header that the writer puts before a content of `n` octets is read
/// back as that length, whatever follows it.
proof fn lemma_header(id: u8, n: nat, rest: Seq<u8>)
    requires
        n <= max_alloc(),
    ensures
        spec_header(seq![id] + spec_len_octets(n) + rest) == HeaderOutcome::Header(
            1 + spec_len_octets(n).len(),
            n,
        ),
{
    let data = seq![id] + spec_len_octets(n) + rest;
    if n >= 128 {
        let d = le_digits(n);
        lemma_pow256_8();
        lemma_le_digits_len(n, 8);
        assert(d.len() >= 1);
        assert(data[1] == (0x80 + d.len()) as u8);
        assert(data.subrange(2, 2 + d.len() as int) =~= d.reverse());
        lemma_be_of_digits(n);
    }
}

/// A well-formed item, written, is read back as the first item of whatever
/// it starts.
proof fn lemma_first_item(t: SpecTlv, rest: Seq<u8>)
    requires
        well_formed(t),
    ensures
        spec_first(spec_item_octets(t) + rest) == FirstOutcome::Item(t, spec_item_octets(t).len()),
    decreases t,
{
    let c = spec_content_octets(t.value);
    let id = spec_identifier(t.tag_class, t.tag);
    let lo = spec_len_octets(c.len());
    let data = spec_item_octets(t) + rest;
    assert(data =~= seq![id] + lo + (c + rest));
    lemma_header(id, c.len(), c + rest);
    lemma_identifier(t.tag_class, t.tag);
    let h = 1 + lo.len();
    assert(data.subrange(h as int, (h + c.len()) as int) =~= c);
    assert(data[0] == id);
    match t.value {
        SpecValue::Primitive(p) => {},
        SpecValue::Nested(items) => {
            assert(decreases_to!(t => items)) by {
                assert(decreases_to!(t => t.value));
                assert(decreases_to!(t.value => t.value->Nested_0));
            };
            lemma_parse_items(items);
        },
    }
}

proof fn lemma_parse_items(s: Seq<SpecTlv>)
    requires
        all_well_formed(s),
    ensures
        spec_parse_tlvs(spec_items_octets(s)) == ParseOutcome::Parsed(s),
    decreases s,
{
    if s.len() == 0 {
        assert(spec_items_octets(s) =~= Seq::<u8>::empty());
        assert(s =~= Seq::<SpecTlv>::empty());
    } else {
        let tail = s.subrange(1, s.len() as int);
        lemma_items_octets_cons(s);
        let first = spec_item_octets(s[0]);
        let data = spec_items_octets(s);
        lemma_first_item(s[0], spec_items_octets(tail));
        assert(data.subrange(first.len() as int, data.len() as int) =~= spec_items_octets(tail));
        lemma_parse_items(tail);
        assert(seq![s[0]] + tail =~= s);
    }
}

/// Items each of which is tidy are tidy together.
pub proof fn lemma_all_tidy(s: Seq<SpecTlv>)
    requires
        forall|i: int| 0 <= i < s.len() ==> tidy(#[trigger] s[i]),
    ensures
        all_tidy(s),
    decreases s.len(),
{
    if s.len() > 0 {
        let tail = s.subrange(1, s.len() as int);
        assert forall|i: int| 0 <= i < tail.len() implies tidy(#[trigger] tail[i]) by {
            assert(tail[i] == s[i + 1]);
        }
        lemma_all_tidy(tail);
    }
}

/// A tidy item whose octets can be allocated is well-formed: no content in
/// it is longer than the whole.
pub proof fn lemma_well_formed_of_size(t: SpecTlv)
    requires
        tidy(t),
        spec_item_octets(t).len() <= max_alloc(),
    ensures
        well_formed(t),
    decreases t,
{
    if let SpecValue::Nested(items) = t.value {
        assert(decreases_to!(t => items)) by {
            assert(decreases_to!(t => t.value));
            assert(decreases_to!(t.value => t.value->Nested_0));
        };
        lemma_all_well_formed_of_size(items);
    }
}

proof fn lemma_all_well_formed_of_size(s: Seq<SpecTlv>)
    requires
        all_tidy(s),
        spec_items_octets(s).len() <= max_alloc(),
    ensures
        all_well_formed(s),
    decreases s,
{
    if s.len() > 0 {
        lemma_items_octets_cons(s);
        lemma_well_formed_of_size(s[0]);
        lemma_all_well_formed_of_size(s.subrange(1, s.len() as int));
    }
}

/// What the writer writes of a well-formed item, the reader reads back as
/// exactly that item, and can read.
pub proof fn lemma_der_roundtrip(t: SpecTlv)
    requires
        well_formed(t),
    ensures
        spec_parse_tlvs(spec_item_octets(t)) == ParseOutcome::Parsed(seq![t]),
        readable(spec_item_octets(t)),
{
    let s = seq![t];
    assert(s[0] == t);
    assert(s.subrange(1, 1).len() == 0);
    assert(all_well_formed(s.subrange(1, 1)));
    assert(all_well_formed(s));
    lemma_items_octets_cons(s);
    assert(spec_items_octets(s.subrange(1, 1)) == Seq::<u8>::empty());
    assert(spec_items_octets(s) =~= spec_item_octets(t));
    lemma_parse_items(s);
}

proof fn lemma_top_digit(n: nat)
    requires
        n > 0,
    ensures
        le_digits(n).len() > 0,
        le_digits(n).last() != 0,
    decreases n,
{
    if n / 256 > 0 {
        lemma_top_digit(n / 256);
        assert(le_digits(n).last() == le_digits(n / 256).last());
    } else {
        assert(le_digits(n / 256).len() == 0);
        assert(le_digits(n) =~= seq![(n % 256) as u8]);
    }
}

/// The header that the writer puts before a content of fewer than 2^32
/// octets is canonical.
proof fn lemma_canonical_header(id: u8, n: nat, rest: Seq<u8>)
    requires
        n < 0x1_0000_0000,
        id % 32 != 31,
    ensures
        canonical_header(seq![id] + spec_len_octets(n) + rest),
{
    let data = seq![id] + spec_len_octets(n) + rest;
    assert(data[0] == id);
    if n >= 128 {
        let d = le_digits(n);
        assert(pow256(4) == 0x1_0000_0000) by {
            reveal_with_fuel(pow256, 5);
        }
        lemma_le_digits_len(n, 4);
        lemma_top_digit(n);
        assert(data[1] == (0x80 + d.len()) as u8);
        assert(data[2] == d.reverse()[0]);
        assert(d.reverse()[0] == d.last());
        if d.len() == 1 {
            assert(d =~= seq![(n % 256) as u8]);
            assert(n / 256 == 0) by {
                if n / 256 > 0 {
                    lemma_top_digit(n / 256);
                }
            }
            assert(n % 256 == n);
        }
    }
}

proof fn lemma_strict_first(t: SpecTlv, rest: Seq<u8>)
    requires
        well_formed(t),
        spec_item_octets(t).len() < 0x1_0000_0000,
    ensures
        strict_first(spec_item_octets(t) + rest),
    decreases t,
{
    let c = spec_content_octets(t.value);
    let id = spec_identifier(t.tag_class, t.tag);
    let lo = spec_len_octets(c.len());
    let data = spec_item_octets(t) + rest;
    assert(data =~= seq![id] + lo + (c + rest));
    lemma_header(id, c.len(), c + rest);
    lemma_identifier(t.tag_class, t.tag);
    let cc = class_code(t.tag_class);
    let tc = tag_code(t.tag);
    assert(id % 32 == tc % 32) by (nonlinear_arith)
        requires
            id == cc * 64 + tc,
            tc < 64,
            cc < 4,
    ;
    lemma_canonical_header(id, c.len(), c + rest);
    let h = 1 + lo.len();
    assert(data.subrange(h as int, (h + c.len()) as int) =~= c);
    if let SpecValue::Nested(items) = t.value {
        assert(decreases_to!(t => items)) by {
            assert(decreases_to!(t => t.value));
            assert(decreases_to!(t.value => t.value->Nested_0));
        };
        lemma_strict_items(items);
    }
}

proof fn lemma_strict_items(s: Seq<SpecTlv>)
    requires
        all_well_formed(s),
        spec_items_octets(s).len() < 0x1_0000_0000,
    ensures
        strict_items(spec_items_octets(s)),
    decreases s,
{
    if s.len() > 0 {
        let tail = s.subrange(1, s.len() as int);
        lemma_items_octets_cons(s);
        let first = spec_item_octets(s[0]);
        let data = spec_items_octets(s);
        assert(well_formed(s[0]));
        lemma_strict_first(s[0], spec_items_octets(tail));
        let c = spec_content_octets(s[0].value);
        lemma_header(spec_identifier(s[0].tag_class, s[0].tag), c.len(), c + spec_items_octets(tail));
        assert(data =~= seq![spec_identifier(s[0].tag_class, s[0].tag)] + spec_len_octets(c.len()) + (c
            + spec_items_octets(tail)));
        assert(data.subrange(first.len() as int, data.len() as int) =~= spec_items_octets(tail));
        lemma_strict_items(tail);
    } else {
        assert(spec_items_octets(s).len() == 0);
    }
}

/// The writer writes the distinguished encoding: every header of a
/// well-formed item of fewer than 2^32 octets, nested ones included, is
/// canonical.
pub proof fn lemma_der_strict(t: SpecTlv)
    requires
        well_formed(t),
        spec_item_octets(t).len() < 0x1_0000_0000,
    ensures
        strict_items(spec_item_octets(t)),
{
    let s = seq![t];
    assert(s[0] == t);
    assert(s.subrange(1, 1).len() == 0);
    assert(all_well_formed(s.subrange(1, 1)));
    lemma_items_octets_cons(s);
    assert(spec_items_octets(s.subrange(1, 1)) == Seq::<u8>::empty());
    assert(spec_items_octets(s) =~= spec_item_octets(t));
    lemma_strict_items(s);
}

// ---------------------------------------------------------------------------
// Executable writer
// ---------------------------------------------------------------------------

fn identifier_octet(c: TagClass, t: Tag) -> (b: u8)
    ensures
        b == spec_identifier(c, t),
{
    let cls: u8 = match c {
        TagClass::Universal => 0,
        TagClass::Application => 1,
        TagClass::ContextSpecific => 2,
        TagClass::Private => 3,
    };
    let code: u8 = match t {
        Tag::Integer => 0x02,
        Tag::BitString => 0x03,
        Tag::OctetString => 0x04,
        Tag::Null => 0x05,
        Tag::ObjectIdentifier => 0x06,
        Tag::UTF8String => 0x0c,
        Tag::Sequence => 0x30,
        Tag::SetOf => 0x31,
        Tag::PrintableString => 0x13,
        Tag::IA5String => 0x16,
        Tag::UTCTime => 0x17,
        Tag::GeneralizedTime => 0x18,
        Tag::Other(n) => n % 64,
    };
    cls * 64 + code
}

/// Appends the length octets of a content of `n` octets.
pub fn push_length(out: &mut Vec<u8>, n: usize)
    ensures
        final(out)@ == old(out)@ + spec_len_octets(n as nat),
{
    if n < 128 {
        out.push(n as u8);
        return;
    }
    let mut digits: Vec<u8> = Vec::new();
    let mut m: usize = n;
    assert(digits@ + le_digits(n as nat) =~= le_digits(n as nat));
    while m > 0
        invariant
            le_digits(n as nat) == digits@ + le_digits(m as nat),
        decreases m,
    {
        let ghost before = digits@;
        digits.push((m % 256) as u8);
        assert(le_digits(m as nat) == seq![(m % 256) as u8] + le_digits((m / 256) as nat));
        assert(before + le_digits(m as nat) =~= digits@ + le_digits((m / 256) as nat));
        m = m / 256;
    }
    assert(digits@ + le_digits(0) =~= digits@);
    proof {
        lemma_pow256_8();
        lemma_le_digits_len(n as nat, 8);
    }
    let k = digits.len();
    out.push(0x80 + k as u8);
    let ghost start = out@;
    let mut j: usize = k;
    while j > 0
        invariant
            j <= k == digits@.len() <= 8,
            out@ == start + digits@.reverse().take((k - j) as int),
        decreases j,
    {
        out.push(digits[j - 1]);
        j = j - 1;
        assert(digits@.reverse()[(k - j - 1) as int] == digits@[j as int]);
        assert(out@ =~= start + digits@.reverse().take((k - j) as int));
    }
    assert(digits@.reverse().take(k as int) =~= digits@.reverse());
    assert(out@ =~= old(out)@ + spec_len_octets(n as nat));
}

fn push_all(out: &mut Vec<u8>, bytes: &Vec<u8>)
    ensures
        final(out)@ == old(out)@ + bytes@,
{
    let ghost start = out@;
    let mut i: usize = 0;
    while i < bytes.len()
        invariant
            i <= bytes@.len(),
            out@ == start + bytes@.take(i as int),
        decreases bytes@.len() - i,
    {
        out.push(bytes[i]);
        i = i + 1;
        assert(out@ =~= start + bytes@.take(i as int));
    }
    assert(bytes@.take(i as int) =~= bytes@);
}

/// The DER octets of items written one after another.
pub fn items_content(items: &Vec<Tlv>) -> (r: Vec<u8>)
    ensures
        r@ == spec_items_octets(tlvs_view(items@)),
    decreases items@, 0nat,
{
    let ghost s = tlvs_view(items@);
    proof {
        lemma_tlvs_view_index(items@);
    }
    let mut content: Vec<u8> = Vec::new();
    let mut i: usize = 0;
    assert(s.take(0) =~= Seq::<SpecTlv>::empty());
    while i < items.len()
        invariant
            s == tlvs_view(items@),
            s.len() == items@.len(),
            forall|k: int| 0 <= k < items@.len() ==> #[trigger] s[k] == tlv_view(items@[k]),
            i <= items@.len(),
            content@ == spec_items_octets(s.take(i as int)),
        decreases items@.len() - i,
    {
        proof {
            lemma_items_octets_step(s, i as int);
        }
        assert(decreases_to!(items@ => items@[i as int]));
        write_item(&items[i], &mut content);
        i = i + 1;
    }
    assert(s.take(i as int) =~= s);
    content
}

/// Appends the DER octets of an item.
pub fn write_item(t: &Tlv, out: &mut Vec<u8>)
    ensures
        final(out)@ == old(out)@ + spec_item_octets(t@),
    decreases t, 1nat,
{
    let content: Vec<u8> = match &t.value {
        Value::Primitive(c) => {
            let mut content: Vec<u8> = Vec::new();
            push_all(&mut content, c);
            assert(content@ =~= c@);
            content
        },
        Value::Nested(items) => {
            assert(decreases_to!(*t => items@)) by {
                assert(decreases_to!(*t => t.value));
                assert(decreases_to!(t.value => t.value->Nested_0));
                assert(t.value->Nested_0 == *items);
                assert(decreases_to!(*items => items@));
            };
            items_content(items)
        },
    };
    assert(content@ == spec_content_octets(t@.value));
    out.push(identifier_octet(t.tag_class, t.tag));
    push_length(out, content.len());
    push_all(out, &content);
    assert(out@ =~= old(out)@ + spec_item_octets(t@));
}

/// The DER octets of an item.
pub fn to_der(t: &Tlv) -> (r: Vec<u8>)
    ensures
        r@ == spec_item_octets(t@),
        well_formed(t@) ==> spec_parse_tlvs(r@) == ParseOutcome::Parsed(seq![t@]),
        well_formed(t@) && r@.len() < 0x1_0000_0000 ==> strict_items(r@),
{
    let mut out: Vec<u8> = Vec::new();
    write_item(t, &mut out);
    assert(out@ =~= spec_item_octets(t@));
    proof {
        if well_formed(t@) {
            lemma_der_roundtrip(t@);
            if out@.len() < 0x1_0000_0000 {
                lemma_der_strict(t@);
            }
        }
    }
    out
}

} // verus!
