//! Checks the signature that Slack puts on a webhook request: an HMAC-SHA256
//! over the request timestamp and body, keyed with the app's signing secret.

use hmac::Mac;
use vstd::string::StringSliceAdditionalSpecFns;
use vstd::prelude::*;

verus! {

/// How old a request timestamp may be, in seconds.
pub const SLACK_TIMESTAMP_LEEWAY_SECS: u64 = 300;

/// The HMAC-SHA256 code of `msg` under `key`.
pub uninterp spec fn hmac_sha256_of(key: Seq<u8>, msg: Seq<u8>) -> Seq<u8>;

/// Relies on hmac's `Hmac<Sha256>` (with sha2's `Sha256`): `new_from_slice`
/// accepts a key of any length, `update` feeds `msg`, and `verify_slice`
/// accepts `tag` exactly when it equals the computed code.
#[verifier::external_body]
fn hmac_sha256_verify(key: &[u8], msg: &[u8], tag: &[u8]) -> (r: bool)
    ensures
        r == (tag@ == hmac_sha256_of(key@, msg@)),
{
    match hmac::Hmac::<sha2::Sha256>::new_from_slice(key) {
        Ok(mut mac) => {
            mac.update(msg);
            mac.verify_slice(tag).is_ok()
        },
        Err(_) => false,
    }
}

/// An ASCII hexadecimal digit.
pub open spec fn is_hex_digit(b: u8) -> bool {
    (48 <= b <= 57) || (65 <= b <= 70) || (97 <= b <= 102)
}

/// The value of a hexadecimal digit.
pub open spec fn hex_value(b: u8) -> int {
    if 48 <= b <= 57 {
        b - 48
    } else if 65 <= b <= 70 {
        b - 55
    } else {
        b - 87
    }
}

/// `s` is an even number of hexadecimal digits.
pub open spec fn is_hex(s: Seq<u8>) -> bool {
    s.len() % 2 == 0 && forall|i: int| 0 <= i < s.len() ==> is_hex_digit(#[trigger] s[i])
}

/// The bytes that the hexadecimal digits `s` stand for, two digits a byte.
pub open spec fn hex_bytes(s: Seq<u8>) -> Seq<u8> {
    Seq::new((s.len() / 2) as nat, |i: int| (hex_value(s[2 * i]) * 16 + hex_value(s[2 * i + 1])) as u8)
}

/// Relies on hex's `decode`: it refuses an odd length or a byte that is not
/// a hexadecimal digit of either case, and otherwise turns each pair of
/// digits into one byte, high digit first.
#[verifier::external_body]
fn hex_decode(s: &[u8]) -> (r: Option<Vec<u8>>)
    ensures
        r is Some <==> is_hex(s@),
        r matches Some(v) ==> v@ == hex_bytes(s@),
{
    hex::decode(s).ok()
}

/// A decimal digit.
pub open spec fn is_digit(b: u8) -> bool {
    48 <= b <= 57
}

/// The number that the decimal digits `s` spell.
pub open spec fn digits_value(s: Seq<u8>) -> nat
    decreases s.len(),
{
    if s.len() == 0 {
        0
    } else {
        digits_value(s.drop_last()) * 10 + (s.last() - 48) as nat
    }
}

/// The digits of an unsigned number: a leading `+` is dropped when
/// something follows it.
pub open spec fn unsigned_digits(s: Seq<u8>) -> Seq<u8> {
    if s.len() > 1 && s[0] == 43 {
        s.subrange(1, s.len() as int)
    } else {
        s
    }
}

/// The `u64` that `s` spells in decimal, as Rust's integer parsing reads it.
pub open spec fn parsed_u64(s: Seq<u8>) -> Option<u64> {
    let d = unsigned_digits(s);
    if d.len() > 0 && (forall|i: int| 0 <= i < d.len() ==> is_digit(#[trigger] d[i]))
        && digits_value(d) <= u64::MAX {
        Some(digits_value(d) as u64)
    } else {
        None
    }
}

/// A prefix of a digit string spells no more than the whole.
proof fn lemma_digits_prefix(d: Seq<u8>, k: int)
    requires
        0 <= k <= d.len(),
        forall|i: int| 0 <= i < d.len() ==> is_digit(#[trigger] d[i]),
    ensures
        digits_value(d.subrange(0, k)) <= digits_value(d),
    decreases d.len(),
{
    if k == d.len() {
        assert(d.subrange(0, k) =~= d);
    } else {
        let p = d.drop_last();
        assert forall|i: int| 0 <= i < p.len() implies is_digit(#[trigger] p[i]) by {
            assert(p[i] == d[i]);
        }
        lemma_digits_prefix(p, k);
        assert(p.subrange(0, k) =~= d.subrange(0, k));
    }
}

/// Reads a decimal `u64` as Rust's integer parsing does.
pub fn parse_u64(s: &[u8]) -> (r: Option<u64>)
    ensures
        r == parsed_u64(s@),
{
    let len = s.len();
    let start: usize = if len > 1 && s[0] == 43 {
        1
    } else {
        0
    };
    let ghost d = unsigned_digits(s@);
    assert(d =~= s@.subrange(start as int, len as int));
    if start >= len {
        return None;
    }
    let mut v: u64 = 0;
    let mut i: usize = start;
    while i < len
        invariant
            start <= i <= len,
            len == s@.len(),
            d == s@.subrange(start as int, len as int),
            d == unsigned_digits(s@),
            forall|j: int| start <= j < i ==> is_digit(#[trigger] s@[j]),
            v == digits_value(s@.subrange(start as int, i as int)),
        decreases len - i,
    {
        let b = s[i];
        if b < 48 || b > 57 {
            assert(d[i - start] == s@[i as int]);
            assert(!is_digit(d[i - start]));
            return None;
        }
        let x: u64 = (b - 48) as u64;
        let ghost next = s@.subrange(start as int, i + 1);
        assert(next.drop_last() =~= s@.subrange(start as int, i as int));
        assert(next.last() == b);
        assert(digits_value(next) == v * 10 + x);
        if v > (u64::MAX - x) / 10 {
            proof {
                assert(v * 10 + x > u64::MAX) by (nonlinear_arith)
                    requires
                        v > (u64::MAX - x) / 10,
                        x <= 9,
                ;
                if forall|j: int| 0 <= j < d.len() ==> is_digit(#[trigger] d[j]) {
                    lemma_digits_prefix(d, i + 1 - start);
                    assert(d.subrange(0, i + 1 - start) =~= next);
                    assert(digits_value(d) > u64::MAX);
                }
            }
            return None;
        }
        proof {
            assert(v * 10 + x <= u64::MAX) by (nonlinear_arith)
                requires
                    v <= (u64::MAX - x) / 10,
                    x <= 9,
            ;
        }
        v = v * 10 + x;
        i = i + 1;
    }
    assert(s@.subrange(start as int, len as int) =~= d);
    assert forall|j: int| 0 <= j < d.len() implies is_digit(#[trigger] d[j]) by {
        assert(d[j] == s@[start + j]);
    }
    Some(v)
}

/// The text that Slack signs: `v0:`, the timestamp, `:`, and the body.
pub open spec fn signed_message(timestamp: Seq<u8>, body: Seq<u8>) -> Seq<u8> {
    seq![118u8, 48u8, 58u8] + timestamp + seq![58u8] + body
}

/// A signature header: `v0=` and the code in hexadecimal.
pub open spec fn signature_matches(secret: Seq<u8>, signature: Seq<u8>, timestamp: Seq<u8>, body: Seq<u8>) -> bool {
    &&& signature.len() >= 3
    &&& signature.subrange(0, 3) == seq![118u8, 48u8, 61u8]
    &&& is_hex(signature.subrange(3, signature.len() as int))
    &&& hex_bytes(signature.subrange(3, signature.len() as int)) == hmac_sha256_of(
        secret,
        signed_message(timestamp, body),
    )
}

/// A request is accepted when both headers are there, the timestamp is a
/// number of seconds no more than the leeway before `now`, and the signature
/// is the code of the signed text.
pub open spec fn request_accepted(
    secret: Seq<u8>,
    signature: Option<Seq<u8>>,
    timestamp: Option<Seq<u8>>,
    body: Seq<u8>,
    now: u64,
) -> bool {
    match (signature, timestamp) {
        (Some(sig), Some(ts)) => match parsed_u64(ts) {
            Some(t) => t >= now - SLACK_TIMESTAMP_LEEWAY_SECS && signature_matches(secret, sig, ts, body),
            None => false,
        },
        _ => false,
    }
}

/// Appends the bytes of `b` to `out`.
fn push_bytes(out: &mut Vec<u8>, b: &[u8])
    ensures
        final(out)@ == old(out)@ + b@,
{
    let ghost start = out@;
    let mut i: usize = 0;
    while i < b.len()
        invariant
            i <= b@.len(),
            out@ == start + b@.subrange(0, i as int),
        decreases b@.len() - i,
    {
        out.push(b[i]);
        assert(b@.subrange(0, i + 1) =~= b@.subrange(0, i as int).push(b@[i as int]));
        i = i + 1;
    }
    assert(b@.subrange(0, b@.len() as int) =~= b@);
}

/// Checks a webhook request's signature; `now` is the current time in
/// seconds since the epoch.
pub fn signature_valid(
    signing_secret: &str,
    signature: Option<&str>,
    timestamp: Option<&str>,
    body: &str,
    now: u64,
) -> (r: Option<()>)
    ensures
        r is Some <==> request_accepted(
            signing_secret.spec_bytes(),
            match signature {
                Some(s) => Some(s.spec_bytes()),
                None => None,
            },
            match timestamp {
                Some(t) => Some(t.spec_bytes()),
                None => None,
            },
            body.spec_bytes(),
            now,
        ),
{
    let sig = match signature {
        Some(s) => s.as_bytes(),
        None => return None,
    };
    if sig.len() < 3 {
        return None;
    }
    let mut code_hex: Vec<u8> = Vec::new();
    let mut i: usize = 3;
    while i < sig.len()
        invariant
            3 <= i <= sig@.len(),
            code_hex@ == sig@.subrange(3, i as int),
        decreases sig@.len() - i,
    {
        code_hex.push(sig[i]);
        assert(sig@.subrange(3, i + 1) =~= sig@.subrange(3, i as int).push(sig@[i as int]));
        i = i + 1;
    }
    let code = match hex_decode(code_hex.as_slice()) {
        Some(c) => c,
        None => return None,
    };
    let ts = match timestamp {
        Some(t) => t.as_bytes(),
        None => return None,
    };
    let t = match parse_u64(ts) {
        Some(t) => t,
        None => return None,
    };
    if now >= SLACK_TIMESTAMP_LEEWAY_SECS && t < now - SLACK_TIMESTAMP_LEEWAY_SECS {
        return None;
    }
    let mut msg: Vec<u8> = Vec::new();
    msg.push(118u8);
    msg.push(48u8);
    msg.push(58u8);
    push_bytes(&mut msg, ts);
    msg.push(58u8);
    push_bytes(&mut msg, body.as_bytes());
    assert(msg@ =~= signed_message(ts@, body.spec_bytes()));
    if !(sig[0] == 118u8 && sig[1] == 48u8 && sig[2] == 61u8) {
        assert(sig@.subrange(0, 3) != seq![118u8, 48u8, 61u8]) by {
            let p = sig@.subrange(0, 3);
            assert(p[0] == sig@[0] && p[1] == sig@[1] && p[2] == sig@[2]);
        }
        return None;
    }
    assert(sig@.subrange(0, 3) =~= seq![118u8, 48u8, 61u8]);
    if hmac_sha256_verify(signing_secret.as_bytes(), msg.as_slice(), code.as_slice()) {
        Some(())
    } else {
        None
    }
}

} // verus!
