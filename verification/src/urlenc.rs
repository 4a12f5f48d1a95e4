//! Form-style percent-encoding of URL query values, and decimal
//! rendering of indices, both over ASCII bytes.

use vstd::prelude::*;

verus! {

/// Bytes that stay themselves in a query value: ASCII digits and
/// letters, `*`, `-`, `.` and `_`.
pub open spec fn is_unreserved(b: u8) -> bool {
    (48 <= b && b <= 57) || (65 <= b && b <= 90) || (97 <= b && b <= 122) || b == 42 || b == 45
        || b == 46 || b == 95
}

/// Uppercase hexadecimal digit for a value below 16.
pub open spec fn hex_digit(n: u8) -> u8 {
    if n < 10 {
        (48 + n) as u8
    } else {
        (55 + n) as u8
    }
}

/// Encoding of one byte: itself, `+` for space, else `%XX`.
pub open spec fn enc_byte(b: u8) -> Seq<u8> {
    if is_unreserved(b) {
        seq![b]
    } else if b == 32 {
        seq![43u8]
    } else {
        seq![37u8, hex_digit(b / 16), hex_digit(b % 16)]
    }
}

/// Form-style percent-encoding of a byte string.
pub open spec fn form_enc(s: Seq<u8>) -> Seq<u8>
    decreases s.len(),
{
    if s.len() == 0 {
        Seq::empty()
    } else {
        enc_byte(s[0]) + form_enc(s.subrange(1, s.len() as int))
    }
}

/// Extending the input extends the encoding.
proof fn lemma_form_enc_snoc(s: Seq<u8>, k: int)
    requires
        0 <= k < s.len(),
    ensures
        form_enc(s.take(k + 1)) == form_enc(s.take(k)) + enc_byte(s[k]),
    decreases k,
{
    if k == 0 {
        assert(s.take(1) =~= seq![s[0]]);
        assert(s.take(1).subrange(1, 1) =~= Seq::<u8>::empty());
        assert(s.take(0) =~= Seq::<u8>::empty());
        assert(form_enc(s.take(1)) =~= form_enc(s.take(0)) + enc_byte(s[0]));
    } else {
        let t = s.subrange(1, s.len() as int);
        assert(s.take(k + 1)[0] == s[0]);
        assert(s.take(k + 1).subrange(1, k + 1) =~= t.take(k));
        assert(s.take(k)[0] == s[0]);
        assert(s.take(k).subrange(1, k) =~= t.take(k - 1));
        lemma_form_enc_snoc(t, k - 1);
        assert(t[k - 1] == s[k]);
        assert(enc_byte(s[0]) + (form_enc(t.take(k - 1)) + enc_byte(s[k])) =~= (enc_byte(s[0])
            + form_enc(t.take(k - 1))) + enc_byte(s[k]));
    }
}

/// Append the form-style percent-encoding of `v`.
pub fn urlencode_into(out: &mut Vec<u8>, v: &Vec<u8>)
    ensures
        final(out)@ == old(out)@ + form_enc(v@),
{
    let mut i: usize = 0;
    while i < v.len()
        invariant
            i <= v@.len(),
            out@ == old(out)@ + form_enc(v@.take(i as int)),
        decreases v@.len() - i,
    {
        proof {
            lemma_form_enc_snoc(v@, i as int);
        }
        let b = v[i];
        if (48 <= b && b <= 57) || (65 <= b && b <= 90) || (97 <= b && b <= 122) || b == 42 || b
            == 45 || b == 46 || b == 95 {
            out.push(b);
        } else if b == 32 {
            out.push(43);
        } else {
            out.push(37);
            let hi = b / 16;
            let lo = b % 16;
            out.push(
                if hi < 10 {
                    48 + hi
                } else {
                    55 + hi
                },
            );
            out.push(
                if lo < 10 {
                    48 + lo
                } else {
                    55 + lo
                },
            );
        }
        i = i + 1;
        assert(out@ =~= old(out)@ + form_enc(v@.take(i as int)));
    }
    assert(v@.take(v@.len() as int) =~= v@);
}

/// Decimal digits of a number, most significant first.
pub open spec fn dec_of(n: nat) -> Seq<u8>
    decreases n,
{
    if n < 10 {
        seq![(48 + n) as u8]
    } else {
        dec_of(n / 10) + seq![(48 + n % 10) as u8]
    }
}

/// Append the decimal rendering of `n`.
pub fn push_decimal(out: &mut Vec<u8>, n: usize)
    ensures
        final(out)@ == old(out)@ + dec_of(n as nat),
    decreases n,
{
    if n < 10 {
        out.push(48 + (n as u8));
        assert(out@ =~= old(out)@ + dec_of(n as nat));
    } else {
        push_decimal(out, n / 10);
        out.push(48 + ((n % 10) as u8));
        assert(out@ =~= old(out)@ + dec_of(n as nat));
    }
}

} // verus!
