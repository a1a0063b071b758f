use relay_server::challenge::{
    leading_zeros, public_key_of, sign, solve, solve_challenge, verify, verify_challenge,
    verify_signature, PREFIX_SIZE, SIGNATURE_SIZE,
};
use relay_server::error::{BadRequest, Error, Unauthorized};

fn secret_a() -> Vec<u8> {
    let mut s = vec![0u8; 32];
    s[31] = 1;
    s
}

fn secret_b() -> Vec<u8> {
    let mut s = vec![0u8; 32];
    s[31] = 2;
    s
}

#[test]
fn solutions_verify_across_difficulties() {
    let challenge = vec![0xc3u8; 16];
    for difficulty in vec![0u64, 2, 4, 6, 8, 10, 12, 14, 16] {
        let solution = solve_challenge(&challenge, difficulty).expect("solvable");
        assert_eq!(solution.len(), PREFIX_SIZE + 64);
        assert_eq!(verify_challenge(&challenge, difficulty, &solution), Ok(true));
        // the digest must clear the difficulty
        let digest = solution[PREFIX_SIZE..].to_vec();
        assert!(leading_zeros(&digest) >= difficulty);
    }
}

#[test]
fn tampered_solution_fails() {
    let challenge = vec![0x11u8; 16];
    let mut solution = solve_challenge(&challenge, 8).unwrap();
    let last = solution.len() - 1;
    solution[last] ^= 0xff;
    assert_eq!(verify_challenge(&challenge, 8, &solution), Ok(false));
    // a solution for one challenge does not work for another
    let solution2 = solve_challenge(&challenge, 8).unwrap();
    let other = vec![0x12u8; 16];
    assert_eq!(verify_challenge(&other, 8, &solution2), Ok(false));
}

#[test]
fn too_short_solution_is_rejected_outright() {
    let challenge = vec![0u8; 16];
    assert_eq!(
        verify_challenge(&challenge, 0, &vec![1, 2, 3]),
        Err(Error::BadRequest(BadRequest::InvalidChallenge))
    );
}

#[test]
fn signed_response_verifies_with_the_signer_key() {
    let challenge = vec![0x77u8; 16];
    let secret = secret_a();
    let public = public_key_of(&secret).expect("valid key");
    assert_eq!(public.len(), 64);
    let response = solve(&challenge, 8, &secret).expect("solve and sign");
    assert!(response.len() >= SIGNATURE_SIZE + PREFIX_SIZE);
    assert_eq!(verify(&challenge, 8, &response, &public), Ok(true));
}

#[test]
fn wrong_key_is_unauthorized() {
    let challenge = vec![0x42u8; 16];
    let secret = secret_a();
    let other_public = public_key_of(&secret_b()).unwrap();
    let response = solve(&challenge, 4, &secret).unwrap();
    // the signature recovers, but to the wrong signer
    assert_eq!(
        verify(&challenge, 4, &response, &other_public),
        Err(Error::Unauthorized(Unauthorized::InvalidChallenge))
    );
}

#[test]
fn short_response_is_a_bad_request() {
    let public = public_key_of(&secret_a()).unwrap();
    assert_eq!(
        verify(&vec![0u8; 16], 4, &vec![1, 2, 3], &public),
        Err(Error::BadRequest(BadRequest::InvalidChallenge))
    );
    assert!(verify_signature(&vec![0u8; 10], &public).is_err());
}

#[test]
fn signature_layer_exposes_the_solution() {
    let challenge = vec![0x05u8; 16];
    let secret = secret_a();
    let public = public_key_of(&secret).unwrap();
    let solution = solve_challenge(&challenge, 4).unwrap();
    let response = sign(solution.clone(), &secret).unwrap();
    assert_eq!(response.len(), SIGNATURE_SIZE + solution.len());
    let embedded = verify_signature(&response, &public).expect("signature checks");
    assert_eq!(embedded, solution);
}

#[test]
fn leading_zeros_counts_bits() {
    assert_eq!(leading_zeros(&vec![]), 0);
    assert_eq!(leading_zeros(&vec![0x80]), 0);
    assert_eq!(leading_zeros(&vec![0x40]), 1);
    assert_eq!(leading_zeros(&vec![0x01]), 7);
    assert_eq!(leading_zeros(&vec![0x00]), 8);
    assert_eq!(leading_zeros(&vec![0x00, 0x00, 0xff]), 16);
    assert_eq!(leading_zeros(&vec![0x00, 0x20, 0xff]), 10);
    assert_eq!(leading_zeros(&vec![0x00, 0x00, 0x00]), 24);
}
