//! Proof-of-work challenges and the signatures over their solutions.
//!
//! A solution to a challenge is `prefix || digest` where `digest` is the
//! SHA3-512 hash of `prefix || challenge` and starts with at least
//! `difficulty` zero bits. The signed response a peer sends back is
//! `v || r || s || solution`, where `(v, r, s)` is a recoverable
//! signature over the SHA-256 hash of the solution.

use vstd::prelude::*;

use crate::bytes::{sub_bytes, u64_to_be};
use crate::error::{BadRequest, Error, ServerResult};
use crate::session::bytes_eq;

verus! {

/// Length of the counter prefix of a solution.
pub const PREFIX_SIZE: usize = 8;

/// Length of a recoverable signature: one recovery byte and two
/// 32-byte halves.
pub const SIGNATURE_SIZE: usize = 65;

/// What sha3::Sha3_512 returns for `nonce || input`; a fixed function of
/// the two buffers alone.
pub uninterp spec fn sha3_512_of(nonce: Seq<u8>, input: Seq<u8>) -> Seq<u8>;

/// What sha2::Sha256 returns for `input`; a fixed function of the buffer.
pub uninterp spec fn sha256_of(input: Seq<u8>) -> Seq<u8>;

/// The public key that ethsign::Signature::recover yields for a
/// signature `(v, r, s)` over `message`, if any; ECDSA public-key
/// recovery is a fixed function of its inputs.
pub uninterp spec fn recover_of(v: u8, r: Seq<u8>, s: Seq<u8>, message: Seq<u8>) -> Option<
    Seq<u8>,
>;

/// The signature ethsign::SecretKey::sign produces over `message` with
/// the key built from `secret`; deterministic (RFC 6979 nonces), so a
/// fixed function of the two.
pub uninterp spec fn sign_of(secret: Seq<u8>, message: Seq<u8>) -> Option<(u8, Seq<u8>, Seq<u8>)>;

/// The public key of the secret key built from `secret`, if `secret` is
/// a valid key.
pub uninterp spec fn public_of(secret: Seq<u8>) -> Option<Seq<u8>>;

/// Relies on sha3::Sha3_512 (via the digest traits): hashes
/// `nonce || input` to 64 bytes, a function of the two buffers alone.
#[verifier::external_body]
fn digest(nonce: &Vec<u8>, input: &Vec<u8>) -> (r: Vec<u8>)
    ensures
        r@ == sha3_512_of(nonce@, input@),
        r@.len() == 64,
{
    let mut hasher = <sha3::Sha3_512 as sha3::Digest>::new();
    sha3::Digest::update(&mut hasher, nonce.as_slice());
    sha3::Digest::update(&mut hasher, input.as_slice());
    sha3::Digest::finalize(hasher).to_vec()
}

/// Relies on sha2::Sha256: hashes `input` to 32 bytes, a function of the
/// buffer alone.
#[verifier::external_body]
fn sha256(input: &Vec<u8>) -> (r: Vec<u8>)
    ensures
        r@ == sha256_of(input@),
        r@.len() == 32,
{
    <sha2::Sha256 as sha2::Digest>::digest(input.as_slice()).to_vec()
}

/// Relies on ethsign::Signature::recover: recovers the 64-byte public
/// key of the signer of `message`, or fails; deterministic in its
/// arguments.
#[verifier::external_body]
fn recover_signer(v: u8, r: &Vec<u8>, s: &Vec<u8>, message: &Vec<u8>) -> (res: Option<Vec<u8>>)
    requires
        r@.len() == 32,
        s@.len() == 32,
    ensures
        match res {
            Some(k) => recover_of(v, r@, s@, message@) == Some(k@) && k@.len() == 64,
            None => recover_of(v, r@, s@, message@) is None,
        },
{
    let mut ra = [0u8; 32];
    let mut sa = [0u8; 32];
    ra.copy_from_slice(r.as_slice());
    sa.copy_from_slice(s.as_slice());
    let sig = ethsign::Signature { v, r: ra, s: sa };
    match sig.recover(message.as_slice()) {
        Ok(key) => Some(key.bytes().to_vec()),
        Err(_) => None,
    }
}

/// Relies on ethsign::SecretKey::{from_raw, sign}: signs the 32-byte
/// `message` with the key built from `secret`. Signing is deterministic,
/// and per ethsign's contract, Signature::recover over the same message
/// yields the signer's public key.
#[verifier::external_body]
fn sign_digest(secret: &Vec<u8>, message: &Vec<u8>) -> (res: Option<(u8, Vec<u8>, Vec<u8>)>)
    requires
        message@.len() == 32,
    ensures
        match res {
            Some(sig) => {
                &&& sign_of(secret@, message@) == Some((sig.0, sig.1@, sig.2@))
                &&& sig.1@.len() == 32
                &&& sig.2@.len() == 32
                &&& public_of(secret@) is Some
                &&& recover_of(sig.0, sig.1@, sig.2@, message@) == public_of(secret@)
            },
            None => sign_of(secret@, message@) is None,
        },
{
    let key = match ethsign::SecretKey::from_raw(secret.as_slice()) {
        Ok(key) => key,
        Err(_) => {
            return None;
        },
    };
    match key.sign(message.as_slice()) {
        Ok(sig) => Some((sig.v, sig.r.to_vec(), sig.s.to_vec())),
        Err(_) => None,
    }
}

/// Relies on ethsign::SecretKey::{from_raw, public}: the 64-byte public
/// key of the key built from `secret`, if `secret` is valid.
#[verifier::external_body]
pub fn public_key_of(secret: &Vec<u8>) -> (res: Option<Vec<u8>>)
    ensures
        match res {
            Some(k) => public_of(secret@) == Some(k@) && k@.len() == 64,
            None => public_of(secret@) is None,
        },
{
    match ethsign::SecretKey::from_raw(secret.as_slice()) {
        Ok(key) => Some(key.public().bytes().to_vec()),
        Err(_) => None,
    }
}

/// Leading zero bits of `b`.
pub open spec fn byte_leading_zeros(b: u8) -> int {
    if b >= 128 {
        0
    } else if b >= 64 {
        1
    } else if b >= 32 {
        2
    } else if b >= 16 {
        3
    } else if b >= 8 {
        4
    } else if b >= 4 {
        5
    } else if b >= 2 {
        6
    } else if b >= 1 {
        7
    } else {
        8
    }
}

/// Leading zero bits of the byte suffix of `s` from `i` on.
pub open spec fn leading_zeros_from(s: Seq<u8>, i: int) -> int
    decreases s.len() - i,
{
    if i < 0 || i >= s.len() {
        0
    } else if s[i] == 0 {
        8 + leading_zeros_from(s, i + 1)
    } else {
        byte_leading_zeros(s[i])
    }
}

/// Number of zero bits a digest starts with.
pub open spec fn spec_leading_zeros(s: Seq<u8>) -> int {
    leading_zeros_from(s, 0)
}

fn byte_lz(b: u8) -> (r: u64)
    ensures
        r == byte_leading_zeros(b),
{
    if b >= 128 {
        0
    } else if b >= 64 {
        1
    } else if b >= 32 {
        2
    } else if b >= 16 {
        3
    } else if b >= 8 {
        4
    } else if b >= 4 {
        5
    } else if b >= 2 {
        6
    } else if b >= 1 {
        7
    } else {
        8
    }
}

/// Number of zero bits `result` starts with.
#[verifier::loop_isolation(false)]
pub fn leading_zeros(result: &Vec<u8>) -> (r: u64)
    requires
        result@.len() < 0x1000_0000_0000_0000,
    ensures
        r == spec_leading_zeros(result@),
{
    let mut total: u64 = 0;
    let mut i: usize = 0;
    while i < result.len()
        invariant
            i <= result@.len(),
            total == 8 * i,
            spec_leading_zeros(result@) == total + leading_zeros_from(result@, i as int),
        decreases result@.len() - i,
    {
        let b = result[i];
        if b == 0 {
            total = total + 8;
        } else {
            return total + byte_lz(b);
        }
        i = i + 1;
    }
    total
}

/// A valid proof of work: the tail of `response` is the SHA3-512 digest
/// of its 8-byte prefix followed by the challenge, and that digest
/// starts with at least `difficulty` zero bits.
pub open spec fn pow_ok(challenge: Seq<u8>, difficulty: u64, response: Seq<u8>) -> bool {
    &&& response.len() >= PREFIX_SIZE
    &&& response.subrange(PREFIX_SIZE as int, response.len() as int) == sha3_512_of(
        response.subrange(0, PREFIX_SIZE as int),
        challenge,
    )
    &&& spec_leading_zeros(
        sha3_512_of(response.subrange(0, PREFIX_SIZE as int), challenge),
    ) >= difficulty
}

/// Counter `c` solves the challenge at the given difficulty.
pub open spec fn counter_clears(challenge: Seq<u8>, difficulty: u64, c: u64) -> bool {
    spec_leading_zeros(sha3_512_of(crate::bytes::spec_u64_be(c), challenge)) >= difficulty
}

/// Search for a counter whose digest clears the difficulty, counting up
/// from zero: the result is a valid proof of work built on the least
/// such counter, and failure means no counter at all clears it.
pub fn solve_challenge(challenge: &Vec<u8>, difficulty: u64) -> (r: ServerResult<Vec<u8>>)
    ensures
        match r {
            Ok(resp) => {
                &&& pow_ok(challenge@, difficulty, resp@)
                &&& resp@.len() == PREFIX_SIZE + 64
                &&& exists|k: u64|
                    {
                        &&& resp@.subrange(0, PREFIX_SIZE as int) == crate::bytes::spec_u64_be(k)
                        &&& #[trigger] counter_clears(challenge@, difficulty, k)
                        &&& forall|c: u64| c < k ==> !counter_clears(challenge@, difficulty, c)
                    }
            },
            Err(e) => e == Error::BadRequest(BadRequest::InvalidChallenge) && forall|c: u64|
                !counter_clears(challenge@, difficulty, c),
        },
{
    let mut counter: u64 = 0;
    loop
        invariant
            forall|c: u64| c < counter ==> !counter_clears(challenge@, difficulty, c),
        decreases u64::MAX - counter,
    {
        let prefix = u64_to_be(counter);
        let mut result = digest(&prefix, challenge);
        if leading_zeros(&result) >= difficulty {
            let mut response = prefix;
            let ghost prefix_view = response@;
            let ghost digest_view = result@;
            response.append(&mut result);
            proof {
                assert(response@.subrange(0, PREFIX_SIZE as int) =~= prefix_view);
                assert(response@.subrange(PREFIX_SIZE as int, response@.len() as int)
                    =~= digest_view);
                assert(counter_clears(challenge@, difficulty, counter));
            }
            return Ok(response);
        }
        proof {
            assert(!counter_clears(challenge@, difficulty, counter));
        }
        if counter == u64::MAX {
            proof {
                assert forall|c: u64| !counter_clears(challenge@, difficulty, c) by {
                    if c < u64::MAX {
                    }
                }
            }
            return Err(Error::BadRequest(BadRequest::InvalidChallenge));
        }
        counter = counter + 1;
    }
}

/// Check a bare proof of work. `Ok(b)` says exactly whether `response`
/// is a valid solution; too-short responses are rejected outright.
pub fn verify_challenge(challenge: &Vec<u8>, difficulty: u64, response: &Vec<u8>) -> (r:
    ServerResult<bool>)
    requires
        response@.len() < 0x1000_0000_0000_0000,
    ensures
        match r {
            Ok(b) => response@.len() >= PREFIX_SIZE && b == pow_ok(
                challenge@,
                difficulty,
                response@,
            ),
            Err(e) => e == Error::BadRequest(BadRequest::InvalidChallenge) && response@.len()
                < PREFIX_SIZE,
        },
{
    if response.len() < PREFIX_SIZE {
        return Err(Error::BadRequest(BadRequest::InvalidChallenge));
    }
    let prefix = sub_bytes(response, 0, PREFIX_SIZE);
    let to_verify = sub_bytes(response, PREFIX_SIZE, response.len());
    let expected = digest(&prefix, challenge);
    let zeros = leading_zeros(&expected);
    let ok = bytes_eq(&expected, &to_verify) && zeros >= difficulty;
    Ok(ok)
}

/// A solution the solver returned is exactly what `verify_challenge`
/// accepts: its digest tail matches its prefix and clears the
/// difficulty.
pub proof fn lemma_solver_output_verifies(challenge: Seq<u8>, difficulty: u64, response: Seq<u8>)
    requires
        pow_ok(challenge, difficulty, response),
    ensures
        response.len() >= PREFIX_SIZE,
        response.subrange(PREFIX_SIZE as int, response.len() as int) == sha3_512_of(
            response.subrange(0, PREFIX_SIZE as int),
            challenge,
        ),
        spec_leading_zeros(response.subrange(PREFIX_SIZE as int, response.len() as int))
            >= difficulty,
{
}

/// The full signed response is well formed for `pub_key`: it is long
/// enough, its signature recovers to `pub_key` over the SHA-256 of the
/// embedded solution, and that solution is a valid proof of work.
pub open spec fn challenge_response_ok(
    challenge: Seq<u8>,
    difficulty: u64,
    response: Seq<u8>,
    pub_key: Seq<u8>,
) -> bool {
    &&& response.len() >= SIGNATURE_SIZE
    &&& recover_of(
        response[0],
        response.subrange(1, 33),
        response.subrange(33, SIGNATURE_SIZE as int),
        sha256_of(response.subrange(SIGNATURE_SIZE as int, response.len() as int)),
    ) == Some(pub_key)
    &&& pow_ok(
        challenge,
        difficulty,
        response.subrange(SIGNATURE_SIZE as int, response.len() as int),
    )
}

/// Strip and check the signature layer of a response: on success the
/// embedded solution is returned and the signature recovers to
/// `pub_key` over its SHA-256 hash.
pub fn verify_signature(response: &Vec<u8>, pub_key: &Vec<u8>) -> (r: ServerResult<Vec<u8>>)
    ensures
        match r {
            Ok(sol) => {
                &&& response@.len() >= SIGNATURE_SIZE
                &&& sol@ == response@.subrange(SIGNATURE_SIZE as int, response@.len() as int)
                &&& recover_of(
                    response@[0],
                    response@.subrange(1, 33),
                    response@.subrange(33, SIGNATURE_SIZE as int),
                    sha256_of(sol@),
                ) == Some(pub_key@)
            },
            Err(e) => {
                let rec = recover_of(
                    response@[0],
                    response@.subrange(1, 33),
                    response@.subrange(33, SIGNATURE_SIZE as int),
                    sha256_of(response@.subrange(SIGNATURE_SIZE as int, response@.len() as int)),
                );
                if response@.len() < SIGNATURE_SIZE || rec is None {
                    e == Error::BadRequest(BadRequest::InvalidChallenge)
                } else {
                    rec != Some(pub_key@) && e == Error::Unauthorized(
                        crate::error::Unauthorized::InvalidChallenge,
                    )
                }
            },
        },
{
    if response.len() < SIGNATURE_SIZE {
        return Err(Error::BadRequest(BadRequest::InvalidChallenge));
    }
    let v = response[0];
    let rr = sub_bytes(response, 1, 33);
    let ss = sub_bytes(response, 33, SIGNATURE_SIZE);
    let embedded = sub_bytes(response, SIGNATURE_SIZE, response.len());
    let message = sha256(&embedded);
    match recover_signer(v, &rr, &ss, &message) {
        Some(recovered) => {
            if bytes_eq(&recovered, pub_key) {
                Ok(embedded)
            } else {
                Err(Error::Unauthorized(crate::error::Unauthorized::InvalidChallenge))
            }
        },
        None => Err(Error::BadRequest(BadRequest::InvalidChallenge)),
    }
}

/// Check a full signed response. `Ok(true)` exactly when the response
/// is well formed for `pub_key` per `challenge_response_ok`.
pub fn verify(
    challenge: &Vec<u8>,
    difficulty: u64,
    response: &Vec<u8>,
    pub_key: &Vec<u8>,
) -> (r: ServerResult<bool>)
    requires
        response@.len() < 0x1000_0000_0000_0000,
    ensures
        (r == Ok::<bool, Error>(true)) == challenge_response_ok(
            challenge@,
            difficulty,
            response@,
            pub_key@,
        ),
        ({
            let rec = recover_of(
                response@[0],
                response@.subrange(1, 33),
                response@.subrange(33, SIGNATURE_SIZE as int),
                sha256_of(response@.subrange(SIGNATURE_SIZE as int, response@.len() as int)),
            );
            &&& (r is Err) == (response@.len() < SIGNATURE_SIZE || rec != Some(pub_key@)
                || response@.len() < SIGNATURE_SIZE + PREFIX_SIZE)
            &&& r is Err ==> r->Err_0 == (if response@.len() < SIGNATURE_SIZE || rec is None
                || (rec == Some(pub_key@) && response@.len() < SIGNATURE_SIZE + PREFIX_SIZE) {
                Error::BadRequest(BadRequest::InvalidChallenge)
            } else {
                Error::Unauthorized(crate::error::Unauthorized::InvalidChallenge)
            })
        }),
{
    let inner = match verify_signature(response, pub_key) {
        Ok(inner) => inner,
        Err(e) => {
            return Err(e);
        },
    };
    verify_challenge(challenge, difficulty, &inner)
}

/// Sign a solution: the result is `v || r || s || solution` for the
/// deterministic signature over the solution's SHA-256 hash.
pub fn sign(solution: Vec<u8>, secret: &Vec<u8>) -> (r: ServerResult<Vec<u8>>)
    ensures
        match r {
            Ok(out) => {
                &&& sign_of(secret@, sha256_of(solution@)) is Some
                &&& {
                    let sig = sign_of(secret@, sha256_of(solution@)).unwrap();
                    &&& sig.1.len() == 32
                    &&& sig.2.len() == 32
                    &&& out@ == seq![sig.0] + sig.1 + sig.2 + solution@
                    &&& out@.len() == SIGNATURE_SIZE + solution@.len()
                    &&& public_of(secret@) is Some
                    &&& recover_of(sig.0, sig.1, sig.2, sha256_of(solution@)) == public_of(
                        secret@,
                    )
                }
            },
            Err(e) => e == Error::Unauthorized(crate::error::Unauthorized::InvalidChallenge)
                && sign_of(secret@, sha256_of(solution@)) is None,
        },
{
    let message = sha256(&solution);
    let (v, mut rr, mut ss) = match sign_digest(secret, &message) {
        Some(sig) => sig,
        None => {
            return Err(Error::Unauthorized(crate::error::Unauthorized::InvalidChallenge));
        },
    };
    let ghost sol0 = solution@;
    let mut out: Vec<u8> = Vec::new();
    out.push(v);
    out.append(&mut rr);
    out.append(&mut ss);
    let mut solution = solution;
    out.append(&mut solution);
    proof {
        let sig = sign_of(secret@, sha256_of(sol0)).unwrap();
        assert(out@ =~= seq![sig.0] + sig.1 + sig.2 + sol0);
    }
    Ok(out)
}

/// Solve and sign a challenge. On success the whole response is well
/// formed for the signer's own public key, so `verify` accepts it.
pub fn solve(challenge: &Vec<u8>, difficulty: u64, secret: &Vec<u8>) -> (r: ServerResult<Vec<u8>>)
    ensures
        match r {
            Ok(out) => public_of(secret@) is Some && challenge_response_ok(
                challenge@,
                difficulty,
                out@,
                public_of(secret@).unwrap(),
            ),
            Err(e) => (forall|c: u64| !counter_clears(challenge@, difficulty, c)) || (
            exists|sol: Seq<u8>|
                #[trigger] pow_ok(challenge@, difficulty, sol) && sign_of(
                    secret@,
                    sha256_of(sol),
                ) is None),
        },
{
    let solution = match solve_challenge(challenge, difficulty) {
        Ok(solution) => solution,
        Err(e) => {
            return Err(e);
        },
    };
    let ghost sol_view = solution@;
    let out = match sign(solution, secret) {
        Ok(out) => out,
        Err(e) => {
            proof {
                assert(pow_ok(challenge@, difficulty, sol_view) && sign_of(
                    secret@,
                    sha256_of(sol_view),
                ) is None);
            }
            return Err(e);
        },
    };
    proof {
        let sig = sign_of(secret@, sha256_of(sol_view)).unwrap();
        assert(out@.subrange(SIGNATURE_SIZE as int, out@.len() as int) =~= sol_view);
        assert(out@.subrange(1, 33) =~= sig.1);
        assert(out@.subrange(33, SIGNATURE_SIZE as int) =~= sig.2);
        assert(out@[0] == sig.0);
    }
    Ok(out)
}

} // verus!
