//! Deterministic JSON rendering and bulk-row escaping, over bytes.
//!
//! Names and properties are serialized with a fixed field order and the
//! insertion order of keys, so storage round trips are stable.  Every
//! bulk-row field then passes through the store's escape convention for
//! its text bulk format: backslash, tab, line feed and carriage return
//! are escaped, so no field byte can be misread as a delimiter.

use vstd::prelude::*;
use crate::hexcodec::hex_digit;

verus! {

/// JSON string escaping of one byte: quote, backslash, the named control
/// escapes, `\u00XX` for other control bytes, all else unchanged.
pub open spec fn json_esc_byte(b: u8) -> Seq<u8> {
    if b == 0x22 {
        seq![0x5Cu8, 0x22u8]
    } else if b == 0x5C {
        seq![0x5Cu8, 0x5Cu8]
    } else if b == 0x08 {
        seq![0x5Cu8, 0x62u8]
    } else if b == 0x09 {
        seq![0x5Cu8, 0x74u8]
    } else if b == 0x0A {
        seq![0x5Cu8, 0x6Eu8]
    } else if b == 0x0C {
        seq![0x5Cu8, 0x66u8]
    } else if b == 0x0D {
        seq![0x5Cu8, 0x72u8]
    } else if b < 0x20 {
        seq![0x5Cu8, 0x75u8, 0x30u8, 0x30u8, hex_digit(b / 16), hex_digit(b % 16)]
    } else {
        seq![b]
    }
}

/// JSON escaping of a whole byte sequence.
pub open spec fn json_escape(s: Seq<u8>) -> Seq<u8>
    decreases s.len(),
{
    if s.len() == 0 {
        Seq::empty()
    } else {
        json_esc_byte(s[0]) + json_escape(s.drop_first())
    }
}

/// A JSON string literal: quoted, escaped.
pub open spec fn json_quote(s: Seq<u8>) -> Seq<u8> {
    seq![0x22u8] + json_escape(s) + seq![0x22u8]
}

/// Bulk-format escaping of one byte: backslash, tab, line feed and
/// carriage return become two-byte escapes; all else is unchanged.
pub open spec fn copy_esc_byte(b: u8) -> Seq<u8> {
    if b == 0x5C {
        seq![0x5Cu8, 0x5Cu8]
    } else if b == 0x09 {
        seq![0x5Cu8, 0x74u8]
    } else if b == 0x0A {
        seq![0x5Cu8, 0x6Eu8]
    } else if b == 0x0D {
        seq![0x5Cu8, 0x72u8]
    } else {
        seq![b]
    }
}

/// Bulk-format escaping of a whole field.
pub open spec fn copy_escape(s: Seq<u8>) -> Seq<u8>
    decreases s.len(),
{
    if s.len() == 0 {
        Seq::empty()
    } else {
        copy_esc_byte(s[0]) + copy_escape(s.drop_first())
    }
}

proof fn lemma_json_escape_snoc(s: Seq<u8>, b: u8)
    ensures
        json_escape(s.push(b)) == json_escape(s) + json_esc_byte(b),
    decreases s.len(),
{
    if s.len() == 0 {
        assert(s.push(b)[0] == b);
        assert(s.push(b).drop_first() =~= Seq::<u8>::empty());
        assert(json_escape(Seq::<u8>::empty()) =~= Seq::<u8>::empty());
        assert(json_escape(s) =~= Seq::<u8>::empty());
        assert(json_escape(s.push(b)) =~= json_escape(s) + json_esc_byte(b));
    } else {
        lemma_json_escape_snoc(s.drop_first(), b);
        assert(s.push(b).drop_first() =~= s.drop_first().push(b));
        assert(s.push(b)[0] == s[0]);
        assert(json_escape(s.push(b)) =~= json_escape(s) + json_esc_byte(b));
    }
}

proof fn lemma_copy_escape_snoc(s: Seq<u8>, b: u8)
    ensures
        copy_escape(s.push(b)) == copy_escape(s) + copy_esc_byte(b),
    decreases s.len(),
{
    if s.len() == 0 {
        assert(s.push(b)[0] == b);
        assert(s.push(b).drop_first() =~= Seq::<u8>::empty());
        assert(copy_escape(Seq::<u8>::empty()) =~= Seq::<u8>::empty());
        assert(copy_escape(s) =~= Seq::<u8>::empty());
        assert(copy_escape(s.push(b)) =~= copy_escape(s) + copy_esc_byte(b));
    } else {
        lemma_copy_escape_snoc(s.drop_first(), b);
        assert(s.push(b).drop_first() =~= s.drop_first().push(b));
        assert(s.push(b)[0] == s[0]);
        assert(copy_escape(s.push(b)) =~= copy_escape(s) + copy_esc_byte(b));
    }
}

/// Append the JSON escaping of `s` to `out`.
#[verifier::loop_isolation(false)]
pub fn push_json_escaped(out: &mut Vec<u8>, s: &Vec<u8>)
    ensures
        final(out)@ == old(out)@ + json_escape(s@),
{
    let mut i: usize = 0;
    while i < s.len()
        invariant
            i <= s@.len(),
            out@ == old(out)@ + json_escape(s@.subrange(0, i as int)),
        decreases s@.len() - i,
    {
        let b = s[i];
        if b == 0x22 {
            out.push(0x5C);
            out.push(0x22);
        } else if b == 0x5C {
            out.push(0x5C);
            out.push(0x5C);
        } else if b == 0x08 {
            out.push(0x5C);
            out.push(0x62);
        } else if b == 0x09 {
            out.push(0x5C);
            out.push(0x74);
        } else if b == 0x0A {
            out.push(0x5C);
            out.push(0x6E);
        } else if b == 0x0C {
            out.push(0x5C);
            out.push(0x66);
        } else if b == 0x0D {
            out.push(0x5C);
            out.push(0x72);
        } else if b < 0x20 {
            out.push(0x5C);
            out.push(0x75);
            out.push(0x30);
            out.push(0x30);
            let hi = b / 16;
            let lo = b % 16;
            out.push(if hi < 10 { 0x30 + hi } else { 0x37 + hi });
            out.push(if lo < 10 { 0x30 + lo } else { 0x37 + lo });
        } else {
            out.push(b);
        }
        proof {
            lemma_json_escape_snoc(s@.subrange(0, i as int), s@[i as int]);
            assert(s@.subrange(0, i as int).push(s@[i as int]) =~= s@.subrange(0, i + 1));
            assert(out@ =~= old(out)@ + json_escape(s@.subrange(0, i + 1)));
        }
        i = i + 1;
    }
    proof {
        assert(s@.subrange(0, s@.len() as int) =~= s@);
    }
}

/// Append the quoted JSON string for `s` to `out`.
pub fn push_json_quoted(out: &mut Vec<u8>, s: &Vec<u8>)
    ensures
        final(out)@ == old(out)@ + json_quote(s@),
{
    out.push(0x22);
    push_json_escaped(out, s);
    out.push(0x22);
    assert(out@ =~= old(out)@ + json_quote(s@));
}

/// Append the bulk-escaped form of `s` to `out`.
#[verifier::loop_isolation(false)]
pub fn push_copy_escaped(out: &mut Vec<u8>, s: &Vec<u8>)
    ensures
        final(out)@ == old(out)@ + copy_escape(s@),
{
    let mut i: usize = 0;
    while i < s.len()
        invariant
            i <= s@.len(),
            out@ == old(out)@ + copy_escape(s@.subrange(0, i as int)),
        decreases s@.len() - i,
    {
        let b = s[i];
        if b == 0x5C {
            out.push(0x5C);
            out.push(0x5C);
        } else if b == 0x09 {
            out.push(0x5C);
            out.push(0x74);
        } else if b == 0x0A {
            out.push(0x5C);
            out.push(0x6E);
        } else if b == 0x0D {
            out.push(0x5C);
            out.push(0x72);
        } else {
            out.push(b);
        }
        proof {
            lemma_copy_escape_snoc(s@.subrange(0, i as int), s@[i as int]);
            assert(s@.subrange(0, i as int).push(s@[i as int]) =~= s@.subrange(0, i + 1));
            assert(out@ =~= old(out)@ + copy_escape(s@.subrange(0, i + 1)));
        }
        i = i + 1;
    }
    proof {
        assert(s@.subrange(0, s@.len() as int) =~= s@);
    }
}

} // verus!
