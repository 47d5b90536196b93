//! Integrity Verifier: decides whether artifact bytes match an expected
//! integrity digest.
//!
//! A digest string has the form `<algorithm>-<base64-encoded-hash>`; the only
//! supported algorithm is `sha512`. A digest with any other tag, with no
//! separator or with more than one, is rejected outright; a well-formed
//! digest passes exactly when its value part equals the standard base64
//! encoding of the SHA-512 hash of the content, byte for byte.

use vstd::prelude::*;

verus! {

/// The SHA-512 hash of a byte sequence.
pub uninterp spec fn sha512_of(b: Seq<u8>) -> Seq<u8>;

/// The standard (RFC 4648, padded) base64 encoding of a byte sequence.
pub uninterp spec fn base64_std(b: Seq<u8>) -> Seq<char>;

/// Relies on sha2's `Sha512`: the digest is a function of the input bytes
/// alone, and is 64 bytes long.
#[verifier::external_body]
pub(crate) fn sha512_bytes(b: &Vec<u8>) -> (r: Vec<u8>)
    ensures
        r@ == sha512_of(b@),
        r@.len() == 64,
{
    let mut hasher = <sha2::Sha512 as sha2::Digest>::new();
    sha2::Digest::update(&mut hasher, b.as_slice());
    sha2::Digest::finalize(hasher).to_vec()
}

/// Relies on base64's `STANDARD` engine: the encoding is a function of the
/// input bytes alone, over an alphabet (`A`-`Z`, `a`-`z`, `0`-`9`, `+`, `/`,
/// padding `=`) that contains no `-`.
#[verifier::external_body]
pub(crate) fn b64_encode(b: &Vec<u8>) -> (r: String)
    ensures
        r@ == base64_std(b@),
        forall|k: int| 0 <= k < r@.len() ==> r@[k] != '-',
{
    base64::Engine::encode(&base64::engine::general_purpose::STANDARD, b.as_slice())
}

/// The outcome of checking content bytes against an integrity digest.
#[derive(Clone, Copy, PartialEq, Eq, Structural, Debug)]
pub enum VerifyOutcome {
    /// The digest is well formed and matches the content.
    Pass,
    /// The digest does not have the form `sha512-<value>`.
    UnsupportedAlgorithm,
    /// The digest is well formed but does not match the content.
    Mismatch,
}

/// `i` is the position of the one and only `-` in `s`.
pub open spec fn digest_split_at(s: Seq<char>, i: int) -> bool {
    &&& 0 <= i < s.len()
    &&& s[i] == '-'
    &&& forall|j: int| 0 <= j < s.len() && s[j] == '-' ==> j == i
}

/// `s` splits on a single `-` into the algorithm tag `sha512` and a value.
pub open spec fn supported_digest(s: Seq<char>) -> bool {
    exists|i: int| #[trigger] digest_split_at(s, i) && s.subrange(0, i) == "sha512"@
}

/// The position of the one and only `-` in `s` (meaningful when some
/// `digest_split_at(s, i)` holds; the position is then unique).
pub open spec fn dash_position(s: Seq<char>) -> int {
    choose|i: int| digest_split_at(s, i)
}

/// The value part of a digest string: everything after the `-`.
pub open spec fn digest_value(s: Seq<char>) -> Seq<char> {
    s.subrange(dash_position(s) + 1, s.len() as int)
}

/// What verification returns for a digest string and content bytes.
pub open spec fn verify_spec(expected: Seq<char>, bytes: Seq<u8>) -> VerifyOutcome {
    if !supported_digest(expected) {
        VerifyOutcome::UnsupportedAlgorithm
    } else if digest_value(expected) == base64_std(sha512_of(bytes)) {
        VerifyOutcome::Pass
    } else {
        VerifyOutcome::Mismatch
    }
}

/// Law: a digest that is not of the form `sha512-<value>` is rejected as an
/// unsupported algorithm whatever the content bytes are.
pub proof fn lemma_unsupported_algorithm(expected: Seq<char>, bytes: Seq<u8>)
    requires
        !supported_digest(expected),
    ensures
        verify_spec(expected, bytes) == VerifyOutcome::UnsupportedAlgorithm,
{
}

/// Checks content bytes against an expected integrity digest.
pub fn verify_integrity(expected: &str, bytes: &Vec<u8>) -> (r: VerifyOutcome)
    ensures
        r == verify_spec(expected@, bytes@),
{
    let n = expected.unicode_len();

    let mut dash: Option<usize> = None;
    let mut k: usize = 0;
    while k < n
        invariant
            n == expected@.len(),
            k <= n,
            match dash {
                None => forall|j: int| 0 <= j < k ==> expected@[j] != '-',
                Some(d) => {
                    &&& 0 <= d < k
                    &&& expected@[d as int] == '-'
                    &&& forall|j: int| 0 <= j < k && expected@[j] == '-' ==> j == d
                },
            },
        decreases n - k,
    {
        if expected.get_char(k) == '-' {
            match dash {
                None => {
                    dash = Some(k);
                },
                Some(d) => {
                    // A second separator: no well-formed split exists.
                    proof {
                        assert forall|i: int| !(#[trigger] digest_split_at(expected@, i)
                            && expected@.subrange(0, i) == "sha512"@) by {
                            if digest_split_at(expected@, i) {
                                assert(expected@[d as int] == '-');
                                assert(expected@[k as int] == '-');
                            }
                        }
                    }
                    return VerifyOutcome::UnsupportedAlgorithm;
                },
            }
        }
        k = k + 1;
    }

    let d = match dash {
        None => {
            // No separator at all.
            proof {
                assert forall|i: int| !(#[trigger] digest_split_at(expected@, i)
                    && expected@.subrange(0, i) == "sha512"@) by {
                }
            }
            return VerifyOutcome::UnsupportedAlgorithm;
        },
        Some(d) => d,
    };

    proof {
        reveal_strlit("sha512");
    }
    let tag_ok = d == 6 && expected.get_char(0) == 's' && expected.get_char(1) == 'h'
        && expected.get_char(2) == 'a' && expected.get_char(3) == '5'
        && expected.get_char(4) == '1' && expected.get_char(5) == '2';
    if !tag_ok {
        proof {
            assert forall|i: int| !(#[trigger] digest_split_at(expected@, i)
                && expected@.subrange(0, i) == "sha512"@) by {
                if digest_split_at(expected@, i) {
                    assert(i == d);
                    if expected@.subrange(0, i) == "sha512"@ {
                        assert(expected@.subrange(0, i).len() == 6);
                        assert(expected@.subrange(0, 6)[0] == 's');
                        assert(expected@.subrange(0, 6)[1] == 'h');
                        assert(expected@.subrange(0, 6)[2] == 'a');
                        assert(expected@.subrange(0, 6)[3] == '5');
                        assert(expected@.subrange(0, 6)[4] == '1');
                        assert(expected@.subrange(0, 6)[5] == '2');
                    }
                }
            }
        }
        return VerifyOutcome::UnsupportedAlgorithm;
    }

    proof {
        assert(digest_split_at(expected@, d as int));
        assert(expected@.subrange(0, d as int) =~= "sha512"@);
        assert(supported_digest(expected@));
        assert(digest_split_at(expected@, dash_position(expected@)));
        assert(dash_position(expected@) == d as int);
    }

    let hash = sha512_bytes(bytes);
    let computed = b64_encode(&hash);
    let clen = computed.as_str().unicode_len();
    let vlen = n - d - 1;

    if clen != vlen {
        proof {
            assert(digest_value(expected@).len() == vlen);
        }
        return VerifyOutcome::Mismatch;
    }

    let mut t: usize = 0;
    while t < vlen
        invariant
            n == expected@.len(),
            d < n,
            vlen == n - d - 1,
            computed@.len() == vlen,
            computed@ == base64_std(sha512_of(bytes@)),
            supported_digest(expected@),
            dash_position(expected@) == d as int,
            t <= vlen,
            forall|j: int| 0 <= j < t ==> expected@[d + 1 + j] == computed@[j],
        decreases vlen - t,
    {
        if expected.get_char(d + 1 + t) != computed.as_str().get_char(t) {
            proof {
                assert(digest_value(expected@)[t as int] != computed@[t as int]);
            }
            return VerifyOutcome::Mismatch;
        }
        t = t + 1;
    }

    proof {
        assert(digest_value(expected@) =~= computed@);
    }
    VerifyOutcome::Pass
}

/// Builds the integrity digest of the given content: the digest that the
/// same content will verify against. The second clause is the round-trip
/// law: verification of content against its own freshly computed digest
/// passes.
pub fn format_digest(bytes: &Vec<u8>) -> (r: String)
    ensures
        r@ == "sha512-"@ + base64_std(sha512_of(bytes@)),
        verify_spec(r@, bytes@) == VerifyOutcome::Pass,
{
    let hash = sha512_bytes(bytes);
    let encoded = b64_encode(&hash);
    let tag: String = "sha512-".to_owned();
    let r = tag.concat(encoded.as_str());
    proof {
        reveal_strlit("sha512-");
        reveal_strlit("sha512");
        assert(r@ =~= "sha512-"@ + base64_std(sha512_of(bytes@)));
        assert(r@[6] == '-');
        assert forall|j: int| 0 <= j < r@.len() && r@[j] == '-' implies j == 6 by {
            if j > 6 {
                assert(r@[j] == encoded@[j - 7]);
            }
        }
        assert(digest_split_at(r@, 6));
        assert(r@.subrange(0, 6) =~= "sha512"@);
        assert(supported_digest(r@));
        assert(digest_split_at(r@, dash_position(r@)));
        assert(dash_position(r@) == 6);
        assert(digest_value(r@) =~= base64_std(sha512_of(bytes@)));
    }
    r
}

} // verus!
