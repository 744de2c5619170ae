//! Canonical bytes of a chain link: the compact JSON text of
//! `(parent, scar)`, byte for byte as serde_json writes it.

use vstd::prelude::*;
use vstd::string::StringSliceAdditionalSpecFns;
use vstd::seq_lib::lemma_concat_associative;
use vstd::utf8::{encode_utf8, encode_utf8_decode_utf8};

use crate::scar::{id_view, Scar, ScarId, ScarKind, ScarView};

verus! {

/// How one byte of a string's UTF-8 text is written inside a JSON string.
pub open spec fn escape_byte(b: u8) -> Seq<u8> {
    if b == 0x22 {
        seq![0x5Cu8, 0x22u8]
    } else if b == 0x5C {
        seq![0x5Cu8, 0x5Cu8]
    } else if b == 0x08 {
        seq![0x5Cu8, 0x62u8]
    } else if b == 0x09 {
        seq![0x5Cu8, 0x74u8]
    } else if b == 0x0A {
        seq![0x5Cu8, 0x6Eu8]
    } else if b == 0x0C {
        seq![0x5Cu8, 0x66u8]
    } else if b == 0x0D {
        seq![0x5Cu8, 0x72u8]
    } else if b < 0x20 {
        seq![0x5Cu8, 0x75u8, 0x30u8, 0x30u8, hex_digit_byte(b / 16), hex_digit_byte(b % 16)]
    } else {
        seq![b]
    }
}

/// The ASCII byte of a lowercase hex digit.
pub open spec fn hex_digit_byte(n: u8) -> u8 {
    if n < 10 {
        (48 + n) as u8
    } else {
        (87 + n) as u8
    }
}

/// The escaped form of a whole byte string.
pub open spec fn escape(bytes: Seq<u8>) -> Seq<u8>
    decreases bytes.len(),
{
    if bytes.len() == 0 {
        Seq::empty()
    } else {
        escape(bytes.drop_last()) + escape_byte(bytes.last())
    }
}

fn push_escaped_byte(out: &mut Vec<u8>, b: u8)
    ensures
        final(out)@ == old(out)@ + escape_byte(b),
{
    if b == 0x22 {
        out.push(0x5C);
        out.push(0x22);
    } else if b == 0x5C {
        out.push(0x5C);
        out.push(0x5C);
    } else if b == 0x08 {
        out.push(0x5C);
        out.push(0x62);
    } else if b == 0x09 {
        out.push(0x5C);
        out.push(0x74);
    } else if b == 0x0A {
        out.push(0x5C);
        out.push(0x6E);
    } else if b == 0x0C {
        out.push(0x5C);
        out.push(0x66);
    } else if b == 0x0D {
        out.push(0x5C);
        out.push(0x72);
    } else if b < 0x20 {
        let hi = b / 16;
        let lo = b % 16;
        out.push(0x5C);
        out.push(0x75);
        out.push(0x30);
        out.push(0x30);
        out.push(if hi < 10 { 48 + hi } else { 87 + hi });
        out.push(if lo < 10 { 48 + lo } else { 87 + lo });
    } else {
        out.push(b);
    }
    assert(final(out)@ =~= old(out)@ + escape_byte(b));
}


/// A string as a JSON string literal: its UTF-8 bytes escaped, in quotes.
pub open spec fn json_string(s: Seq<char>) -> Seq<u8> {
    seq![0x22u8] + escape(encode_utf8(s)) + seq![0x22u8]
}

/// A scar kind as serde writes a snake_case unit variant.
pub open spec fn json_kind(kind: ScarKind) -> Seq<u8> {
    match kind {
        ScarKind::Mistake => "\"mistake\"".spec_bytes(),
        ScarKind::Refusal => "\"refusal\"".spec_bytes(),
        ScarKind::Healing => "\"healing\"".spec_bytes(),
    }
}

/// An optional id: `null`, or the id as a JSON string.
pub open spec fn json_opt_id(id: Option<Seq<char>>) -> Seq<u8> {
    match id {
        None => "null".spec_bytes(),
        Some(s) => json_string(s),
    }
}

/// The `heals` member, left out when the scar heals nothing.
pub open spec fn json_heals(heals: Option<Seq<char>>) -> Seq<u8> {
    match heals {
        None => Seq::empty(),
        Some(s) => ",\"heals\":".spec_bytes() + json_string(s),
    }
}

/// A scar as a JSON object, members in declaration order.
pub open spec fn json_scar(scar: ScarView) -> Seq<u8> {
    "{\"kind\":".spec_bytes() + json_kind(scar.kind)
        + ",\"situation\":".spec_bytes() + json_string(scar.situation)
        + ",\"action\":".spec_bytes() + json_string(scar.action)
        + ",\"consequence\":".spec_bytes() + json_string(scar.consequence)
        + json_heals(scar.heals)
        + "}".spec_bytes()
}

/// The canonical bytes of a chain link: the JSON array `[parent, scar]`.
pub open spec fn canonical_bytes(parent: Option<Seq<char>>, scar: ScarView) -> Seq<u8> {
    "[".spec_bytes() + json_opt_id(parent) + ",".spec_bytes() + json_scar(scar) + "]".spec_bytes()
}

fn push_bytes(out: &mut Vec<u8>, bytes: &[u8])
    ensures
        final(out)@ == old(out)@ + bytes@,
{
    let ghost start = out@;
    let mut i: usize = 0;
    while i < bytes.len()
        invariant
            i <= bytes@.len(),
            out@ == start + bytes@.take(i as int),
        decreases bytes.len() - i,
    {
        out.push(bytes[i]);
        i = i + 1;
        assert(out@ =~= start + bytes@.take(i as int));
    }
    assert(bytes@.take(bytes@.len() as int) =~= bytes@);
}

fn push_json_string(out: &mut Vec<u8>, s: &str)
    ensures
        final(out)@ == old(out)@ + json_string(s@),
{
    let bytes = s.as_bytes();
    out.push(0x22);
    let ghost start = out@;
    let mut i: usize = 0;
    while i < bytes.len()
        invariant
            i <= bytes@.len(),
            bytes@ == encode_utf8(s@),
            out@ == start + escape(bytes@.take(i as int)),
        decreases bytes.len() - i,
    {
        assert(bytes@.take(i + 1).drop_last() =~= bytes@.take(i as int));
        push_escaped_byte(out, bytes[i]);
        i = i + 1;
        assert(out@ =~= start + escape(bytes@.take(i as int)));
    }
    assert(bytes@.take(bytes@.len() as int) =~= bytes@);
    out.push(0x22);
    assert(final(out)@ =~= old(out)@ + json_string(s@));
}

fn push_literal(out: &mut Vec<u8>, lit: &str)
    ensures
        final(out)@ == old(out)@ + lit.spec_bytes(),
{
    push_bytes(out, lit.as_bytes());
}

fn push_opt_id(out: &mut Vec<u8>, id: &Option<ScarId>)
    ensures
        final(out)@ == old(out)@ + json_opt_id(id_view(*id)),
{
    match id {
        None => push_literal(out, "null"),
        Some(s) => push_json_string(out, s.0.as_str()),
    }
}

fn push_scar(out: &mut Vec<u8>, scar: &Scar)
    ensures
        final(out)@ == old(out)@ + json_scar(scar@),
{
    let ghost s = scar@;
    let ghost o = out@;
    push_literal(out, "{\"kind\":");
    match scar.kind {
        ScarKind::Mistake => push_literal(out, "\"mistake\""),
        ScarKind::Refusal => push_literal(out, "\"refusal\""),
        ScarKind::Healing => push_literal(out, "\"healing\""),
    }
    let ghost p1 = "{\"kind\":".spec_bytes() + json_kind(s.kind);
    assert(out@ =~= o + p1);
    push_literal(out, ",\"situation\":");
    push_json_string(out, scar.situation.as_str());
    let ghost p2 = p1 + ",\"situation\":".spec_bytes() + json_string(s.situation);
    assert(out@ =~= o + p2);
    push_literal(out, ",\"action\":");
    push_json_string(out, scar.action.as_str());
    let ghost p3 = p2 + ",\"action\":".spec_bytes() + json_string(s.action);
    assert(out@ =~= o + p3);
    push_literal(out, ",\"consequence\":");
    push_json_string(out, scar.consequence.as_str());
    let ghost p4 = p3 + ",\"consequence\":".spec_bytes() + json_string(s.consequence);
    assert(out@ =~= o + p4);
    match &scar.heals {
        None => {},
        Some(h) => {
            push_literal(out, ",\"heals\":");
            push_json_string(out, h.0.as_str());
        },
    }
    let ghost p5 = p4 + json_heals(s.heals);
    assert(out@ =~= o + p5);
    push_literal(out, "}");
    assert(out@ =~= o + (p5 + "}".spec_bytes()));
}

/// The canonical bytes of the link `(parent, scar)` that a content id hashes.
pub fn canonical_link_bytes(parent: &Option<ScarId>, scar: &Scar) -> (bytes: Vec<u8>)
    ensures
        bytes@ == canonical_bytes(id_view(*parent), scar@),
{
    let mut out: Vec<u8> = Vec::new();
    push_literal(&mut out, "[");
    push_opt_id(&mut out, parent);
    push_literal(&mut out, ",");
    let ghost p = "[".spec_bytes() + json_opt_id(id_view(*parent)) + ",".spec_bytes();
    assert(out@ =~= p);
    push_scar(&mut out, scar);
    push_literal(&mut out, "]");
    assert(out@ =~= p + json_scar(scar@) + "]".spec_bytes());
    out
}

proof fn lemma_escape_concat(a: Seq<u8>, b: Seq<u8>)
    ensures
        escape(a + b) == escape(a) + escape(b),
    decreases b.len(),
{
    if b.len() == 0 {
        assert(a + b =~= a);
        assert(escape(a) + escape(b) =~= escape(a));
    } else {
        assert((a + b).drop_last() =~= a + b.drop_last());
        assert((a + b).last() == b.last());
        lemma_escape_concat(a, b.drop_last());
        assert(escape(a + b) =~= escape(a) + escape(b));
    }
}

proof fn lemma_escape_front(x: Seq<u8>)
    requires
        x.len() > 0,
    ensures
        escape(x) == escape_byte(x[0]) + escape(x.drop_first()),
{
    lemma_escape_concat(seq![x[0]], x.drop_first());
    assert(seq![x[0]] + x.drop_first() =~= x);
    assert(seq![x[0]].drop_last() =~= Seq::<u8>::empty());
    assert(escape(Seq::<u8>::empty()) == Seq::<u8>::empty());
    assert(seq![x[0]].last() == x[0]);
    assert(escape(seq![x[0]]) =~= escape_byte(x[0]));
}

proof fn lemma_escape_byte_shape(b: u8)
    ensures
        escape_byte(b).len() >= 1,
        escape_byte(b)[0] != 0x22,
{
}

proof fn lemma_escape_byte_unique(x: u8, y: u8, r1: Seq<u8>, r2: Seq<u8>)
    requires
        escape_byte(x) + r1 == escape_byte(y) + r2,
    ensures
        x == y,
{
    let ex = escape_byte(x);
    let ey = escape_byte(y);
    let l = ex + r1;
    assert(l[0] == ex[0]);
    assert(l[0] == ey[0]);
    if ex.len() >= 2 && ey.len() >= 2 {
        assert(l[1] == ex[1]);
        assert(l[1] == ey[1]);
        if ex.len() == 6 && ey.len() == 6 {
            assert(l[4] == ex[4]);
            assert(l[4] == ey[4]);
            assert(l[5] == ex[5]);
            assert(l[5] == ey[5]);
            assert(x / 16 == y / 16);
            assert(x % 16 == y % 16);
        }
    }
}


pub(crate) proof fn lemma_cancel_prefix<A>(p: Seq<A>, r1: Seq<A>, r2: Seq<A>)
    requires
        p + r1 == p + r2,
    ensures
        r1 == r2,
{
    assert((p + r1).skip(p.len() as int) =~= r1);
    assert((p + r2).skip(p.len() as int) =~= r2);
}

proof fn lemma_escape_then_quote(x: Seq<u8>, y: Seq<u8>, r1: Seq<u8>, r2: Seq<u8>)
    requires
        escape(x) + (seq![0x22u8] + r1) == escape(y) + (seq![0x22u8] + r2),
    ensures
        x == y,
        r1 == r2,
    decreases x.len(),
{
    let q = seq![0x22u8];
    if x.len() == 0 {
        assert(escape(x) == Seq::<u8>::empty());
        assert(escape(x) + (q + r1) =~= q + r1);
        if y.len() > 0 {
            lemma_escape_front(y);
            lemma_escape_byte_shape(y[0]);
            let l = escape(y) + (q + r2);
            assert(l =~= escape_byte(y[0]) + (escape(y.drop_first()) + (q + r2)));
            assert(l[0] == escape_byte(y[0])[0]);
            assert((q + r1)[0] == 0x22);
        }
        assert(escape(y) == Seq::<u8>::empty());
        assert(escape(y) + (q + r2) =~= q + r2);
        lemma_cancel_prefix(q, r1, r2);
    } else if y.len() == 0 {
        assert(escape(y) == Seq::<u8>::empty());
        assert(escape(y) + (q + r2) =~= q + r2);
        lemma_escape_front(x);
        lemma_escape_byte_shape(x[0]);
        let l = escape(x) + (q + r1);
        assert(l =~= escape_byte(x[0]) + (escape(x.drop_first()) + (q + r1)));
        assert(l[0] == escape_byte(x[0])[0]);
        assert((q + r2)[0] == 0x22);
    } else {
        lemma_escape_front(x);
        lemma_escape_front(y);
        let tx = escape(x.drop_first()) + (q + r1);
        let ty = escape(y.drop_first()) + (q + r2);
        assert(escape(x) + (q + r1) =~= escape_byte(x[0]) + tx);
        assert(escape(y) + (q + r2) =~= escape_byte(y[0]) + ty);
        lemma_escape_byte_unique(x[0], y[0], tx, ty);
        lemma_cancel_prefix(escape_byte(x[0]), tx, ty);
        lemma_escape_then_quote(x.drop_first(), y.drop_first(), r1, r2);
        assert(x =~= seq![x[0]] + x.drop_first());
        assert(y =~= seq![y[0]] + y.drop_first());
    }
}

proof fn lemma_json_string_prefix_free(a: Seq<char>, b: Seq<char>, r1: Seq<u8>, r2: Seq<u8>)
    requires
        json_string(a) + r1 == json_string(b) + r2,
    ensures
        a == b,
        r1 == r2,
{
    let q = seq![0x22u8];
    assert(json_string(a) + r1 =~= q + (escape(encode_utf8(a)) + (q + r1)));
    assert(json_string(b) + r2 =~= q + (escape(encode_utf8(b)) + (q + r2)));
    lemma_cancel_prefix(q, escape(encode_utf8(a)) + (q + r1), escape(encode_utf8(b)) + (q + r2));
    lemma_escape_then_quote(encode_utf8(a), encode_utf8(b), r1, r2);
    encode_utf8_decode_utf8(a);
    encode_utf8_decode_utf8(b);
}


proof fn lemma_literal_bytes()
    ensures
        "null".spec_bytes() =~= seq![0x6Eu8, 0x75u8, 0x6Cu8, 0x6Cu8],
        "}".spec_bytes() =~= seq![0x7Du8],
        ",\"heals\":".spec_bytes() =~= seq![0x2Cu8, 0x22u8, 0x68u8, 0x65u8, 0x61u8, 0x6Cu8, 0x73u8, 0x22u8, 0x3Au8],
        "\"mistake\"".spec_bytes() =~= seq![0x22u8, 0x6Du8, 0x69u8, 0x73u8, 0x74u8, 0x61u8, 0x6Bu8, 0x65u8, 0x22u8],
        "\"refusal\"".spec_bytes() =~= seq![0x22u8, 0x72u8, 0x65u8, 0x66u8, 0x75u8, 0x73u8, 0x61u8, 0x6Cu8, 0x22u8],
        "\"healing\"".spec_bytes() =~= seq![0x22u8, 0x68u8, 0x65u8, 0x61u8, 0x6Cu8, 0x69u8, 0x6Eu8, 0x67u8, 0x22u8],
{
    broadcast use vstd::string::is_ascii_spec_bytes;

    reveal_strlit("null");
    reveal_strlit("}");
    reveal_strlit(",\"heals\":");
    reveal_strlit("\"mistake\"");
    reveal_strlit("\"refusal\"");
    reveal_strlit("\"healing\"");
    assert(vstd::string::is_ascii("null"));
    assert(vstd::string::is_ascii("}"));
    assert(vstd::string::is_ascii(",\"heals\":"));
    assert(vstd::string::is_ascii("\"mistake\""));
    assert(vstd::string::is_ascii("\"refusal\""));
    assert(vstd::string::is_ascii("\"healing\""));
}

/// The bytes of a scar object after its opening `{"kind":`, up to and
/// including the closing `]` of the link.
spec fn scar_tail(s: ScarView) -> Seq<u8> {
    json_kind(s.kind) + (",\"situation\":".spec_bytes() + (json_string(s.situation) + (
    ",\"action\":".spec_bytes() + (json_string(s.action) + (",\"consequence\":".spec_bytes() + (
    json_string(s.consequence) + (json_heals(s.heals) + ("}".spec_bytes() + "]".spec_bytes()))))))))
}

proof fn lemma_canonical_shape(p: Option<Seq<char>>, s: ScarView)
    ensures
        canonical_bytes(p, s) == "[".spec_bytes() + (json_opt_id(p) + (",".spec_bytes() + (
        "{\"kind\":".spec_bytes() + scar_tail(s)))),
{
    let k = "{\"kind\":".spec_bytes();
    let ls = ",\"situation\":".spec_bytes();
    let la = ",\"action\":".spec_bytes();
    let lc = ",\"consequence\":".spec_bytes();
    let c = "}".spec_bytes();
    let r = "]".spec_bytes();
    let a1 = k + json_kind(s.kind);
    let a2 = a1 + ls;
    let a3 = a2 + json_string(s.situation);
    let a4 = a3 + la;
    let a5 = a4 + json_string(s.action);
    let a6 = a5 + lc;
    let a7 = a6 + json_string(s.consequence);
    let a8 = a7 + json_heals(s.heals);
    assert(json_scar(s) == a8 + c);
    lemma_concat_associative(a8, c, r);
    lemma_concat_associative(a7, json_heals(s.heals), c + r);
    lemma_concat_associative(a6, json_string(s.consequence), json_heals(s.heals) + (c + r));
    let t6 = json_string(s.consequence) + (json_heals(s.heals) + (c + r));
    lemma_concat_associative(a5, lc, t6);
    let t5 = lc + t6;
    lemma_concat_associative(a4, json_string(s.action), t5);
    let t4 = json_string(s.action) + t5;
    lemma_concat_associative(a3, la, t4);
    let t3 = la + t4;
    lemma_concat_associative(a2, json_string(s.situation), t3);
    let t2 = json_string(s.situation) + t3;
    lemma_concat_associative(a1, ls, t2);
    let t1 = ls + t2;
    lemma_concat_associative(k, json_kind(s.kind), t1);
    assert(json_scar(s) + r == k + scar_tail(s));
    let o = json_opt_id(p);
    let b = "[".spec_bytes();
    let m = ",".spec_bytes();
    lemma_concat_associative(b + o + m, json_scar(s), r);
    lemma_concat_associative(b + o, m, k + scar_tail(s));
    lemma_concat_associative(b, o, m + (k + scar_tail(s)));
}

proof fn lemma_scar_tail_injective(s1: ScarView, s2: ScarView)
    requires
        scar_tail(s1) == scar_tail(s2),
    ensures
        s1 == s2,
{
    lemma_literal_bytes();
    let r1 = ",\"situation\":".spec_bytes() + (json_string(s1.situation) + (
    ",\"action\":".spec_bytes() + (json_string(s1.action) + (",\"consequence\":".spec_bytes() + (
    json_string(s1.consequence) + (json_heals(s1.heals) + ("}".spec_bytes() + "]".spec_bytes())))))));
    let r2 = ",\"situation\":".spec_bytes() + (json_string(s2.situation) + (
    ",\"action\":".spec_bytes() + (json_string(s2.action) + (",\"consequence\":".spec_bytes() + (
    json_string(s2.consequence) + (json_heals(s2.heals) + ("}".spec_bytes() + "]".spec_bytes())))))));
    assert(scar_tail(s1) == json_kind(s1.kind) + r1);
    assert(scar_tail(s2) == json_kind(s2.kind) + r2);
    if s1.kind != s2.kind {
        assert((json_kind(s1.kind) + r1)[1] == json_kind(s1.kind)[1]);
        assert((json_kind(s2.kind) + r2)[1] == json_kind(s2.kind)[1]);
    }
    lemma_cancel_prefix(json_kind(s1.kind), r1, r2);
    let a1 = ",\"action\":".spec_bytes() + (json_string(s1.action) + (",\"consequence\":".spec_bytes() + (
    json_string(s1.consequence) + (json_heals(s1.heals) + ("}".spec_bytes() + "]".spec_bytes())))));
    let a2 = ",\"action\":".spec_bytes() + (json_string(s2.action) + (",\"consequence\":".spec_bytes() + (
    json_string(s2.consequence) + (json_heals(s2.heals) + ("}".spec_bytes() + "]".spec_bytes())))));
    lemma_cancel_prefix(",\"situation\":".spec_bytes(), json_string(s1.situation) + a1, json_string(s2.situation) + a2);
    lemma_json_string_prefix_free(s1.situation, s2.situation, a1, a2);
    let c1 = ",\"consequence\":".spec_bytes() + (json_string(s1.consequence) + (json_heals(s1.heals) + ("}".spec_bytes() + "]".spec_bytes())));
    let c2 = ",\"consequence\":".spec_bytes() + (json_string(s2.consequence) + (json_heals(s2.heals) + ("}".spec_bytes() + "]".spec_bytes())));
    lemma_cancel_prefix(",\"action\":".spec_bytes(), json_string(s1.action) + c1, json_string(s2.action) + c2);
    lemma_json_string_prefix_free(s1.action, s2.action, c1, c2);
    let e = "}".spec_bytes() + "]".spec_bytes();
    let h1 = json_heals(s1.heals) + e;
    let h2 = json_heals(s2.heals) + e;
    lemma_cancel_prefix(",\"consequence\":".spec_bytes(), json_string(s1.consequence) + h1, json_string(s2.consequence) + h2);
    lemma_json_string_prefix_free(s1.consequence, s2.consequence, h1, h2);
    match (s1.heals, s2.heals) {
        (Some(x), Some(y)) => {
            assert(h1 =~= ",\"heals\":".spec_bytes() + (json_string(x) + e));
            assert(h2 =~= ",\"heals\":".spec_bytes() + (json_string(y) + e));
            lemma_cancel_prefix(",\"heals\":".spec_bytes(), json_string(x) + e, json_string(y) + e);
            lemma_json_string_prefix_free(x, y, e, e);
        },
        (None, Some(y)) => {
            assert(h1[0] == e[0]);
            assert(h2 =~= ",\"heals\":".spec_bytes() + (json_string(y) + e));
            assert(h2[0] == ",\"heals\":".spec_bytes()[0]);
        },
        (Some(x), None) => {
            assert(h2[0] == e[0]);
            assert(h1 =~= ",\"heals\":".spec_bytes() + (json_string(x) + e));
            assert(h1[0] == ",\"heals\":".spec_bytes()[0]);
        },
        (None, None) => {},
    }
}

/// JSON escaping as serde_json writes it: a byte at or above 0x20 other
/// than `"` and `\` is written as itself (so `/` and every non-ASCII UTF-8
/// byte stand unescaped); every other byte becomes an escape that starts with
/// a backslash.
pub proof fn lemma_only_quote_backslash_and_controls_are_escaped(b: u8)
    ensures
        (0x20 <= b && b != 0x22 && b != 0x5C) ==> escape_byte(b) == seq![b],
        !(0x20 <= b && b != 0x22 && b != 0x5C) ==> escape_byte(b).len() >= 2 && escape_byte(b)[0]
            == 0x5C,
{
}

/// Text with no byte that needs escaping is written unchanged between quotes.
pub proof fn lemma_plain_text_is_unescaped(bytes: Seq<u8>)
    requires
        forall|i: int| 0 <= i < bytes.len() ==> 0x20 <= #[trigger] bytes[i] && bytes[i] != 0x22
            && bytes[i] != 0x5C,
    ensures
        escape(bytes) == bytes,
    decreases bytes.len(),
{
    if bytes.len() > 0 {
        let d = bytes.drop_last();
        assert forall|i: int| 0 <= i < d.len() implies 0x20 <= #[trigger] d[i] && d[i] != 0x22
            && d[i] != 0x5C by {
            assert(d[i] == bytes[i]);
        }
        lemma_plain_text_is_unescaped(d);
        lemma_only_quote_backslash_and_controls_are_escaped(bytes.last());
        assert(bytes =~= d.push(bytes.last()));
        assert(escape(bytes) =~= d + seq![bytes.last()]);
    }
}

/// Distinct links have distinct canonical bytes.
pub proof fn lemma_canonical_injective(
    p1: Option<Seq<char>>,
    s1: ScarView,
    p2: Option<Seq<char>>,
    s2: ScarView,
)
    requires
        canonical_bytes(p1, s1) == canonical_bytes(p2, s2),
    ensures
        p1 == p2,
        s1 == s2,
{
    lemma_literal_bytes();
    lemma_canonical_shape(p1, s1);
    lemma_canonical_shape(p2, s2);
    let t1 = ",".spec_bytes() + ("{\"kind\":".spec_bytes() + scar_tail(s1));
    let t2 = ",".spec_bytes() + ("{\"kind\":".spec_bytes() + scar_tail(s2));
    lemma_cancel_prefix("[".spec_bytes(), json_opt_id(p1) + t1, json_opt_id(p2) + t2);
    match (p1, p2) {
        (Some(x), Some(y)) => {
            lemma_json_string_prefix_free(x, y, t1, t2);
        },
        (None, Some(y)) => {
            assert((json_opt_id(p1) + t1)[0] == 0x6E);
            assert((json_opt_id(p2) + t2)[0] == json_string(y)[0]);
        },
        (Some(x), None) => {
            assert((json_opt_id(p2) + t2)[0] == 0x6E);
            assert((json_opt_id(p1) + t1)[0] == json_string(x)[0]);
        },
        (None, None) => {
            lemma_cancel_prefix("null".spec_bytes(), t1, t2);
        },
    }
    lemma_cancel_prefix(",".spec_bytes(), "{\"kind\":".spec_bytes() + scar_tail(s1), "{\"kind\":".spec_bytes() + scar_tail(s2));
    lemma_cancel_prefix("{\"kind\":".spec_bytes(), scar_tail(s1), scar_tail(s2));
    lemma_scar_tail_injective(s1, s2);
}

} // verus!
