use cipherchat::exchange::{
    complete_exchange, decode_public_key, derive_seed, encode_public_key, DhParams, ExchangeError,
};
use cipherchat::keystream::LCG;
use cipherchat::modexp::mod_pow;
use cipherchat::session::{Action, ChatSession, ReceiveOutcome, Role};
use cipherchat::wordfreq::count_word_frequency;

#[test]
fn mod_pow_small_vector() {
    assert_eq!(mod_pow(2, 10, 1000), 24);
    assert_eq!(mod_pow(3, 0, 7), 1);
    assert_eq!(mod_pow(0, 5, 7), 0);
}

#[test]
fn mod_pow_modulus_one_is_zero() {
    assert_eq!(mod_pow(2, 10, 1), 0);
    assert_eq!(mod_pow(0xFFFFFFFFFFFFFFFF, 0xFFFFFFFFFFFFFFFF, 1), 0);
    assert_eq!(mod_pow(12345, 0, 1), 0);
}

#[test]
fn dh_agreement_on_sample_keys() {
    let params = DhParams::standard();
    let a: u64 = 0x1234_5678_9abc_def0;
    let b: u64 = 0x0fed_cba9_8765_4321;
    let pub_a = mod_pow(params.g, a, params.p);
    let pub_b = mod_pow(params.g, b, params.p);
    let secret_ab = mod_pow(pub_b, a, params.p);
    let secret_ba = mod_pow(pub_a, b, params.p);
    assert_eq!(secret_ab, secret_ba);
}

#[test]
fn fixed_private_keys_give_identical_seeds() {
    // both peers hold private key 1: public key is 2, shared secret is 2,
    // and the derived seed is the top half of 2, which is 0
    let params = DhParams::standard();
    let pub_a = mod_pow(params.g, 1, params.p);
    let pub_b = mod_pow(params.g, 1, params.p);
    assert_eq!(pub_a, 2);
    assert_eq!(pub_a, pub_b);
    let frame_a = encode_public_key(pub_a);
    let frame_b = encode_public_key(pub_b);
    let seed_a = complete_exchange(&params, 1, frame_b.as_slice()).unwrap();
    let seed_b = complete_exchange(&params, 1, frame_a.as_slice()).unwrap();
    assert_eq!(seed_a, seed_b);
    assert_eq!(seed_a, 0);
}

#[test]
fn public_key_frame_round_trip() {
    let frame = encode_public_key(0xD87FA3E291B4C7F3);
    assert_eq!(frame, vec![0xD8, 0x7F, 0xA3, 0xE2, 0x91, 0xB4, 0xC7, 0xF3]);
    assert_eq!(decode_public_key(frame.as_slice()), 0xD87FA3E291B4C7F3);
}

#[test]
fn short_handshake_frame_is_incomplete() {
    let params = DhParams::standard();
    let short = vec![0u8; 5];
    assert_eq!(
        complete_exchange(&params, 7, short.as_slice()),
        Err(ExchangeError::IncompleteHandshake)
    );
    let empty: Vec<u8> = Vec::new();
    assert_eq!(
        complete_exchange(&params, 7, empty.as_slice()),
        Err(ExchangeError::IncompleteHandshake)
    );
}

#[test]
fn derive_seed_keeps_top_half() {
    assert_eq!(derive_seed(0xAABBCCDD11223344), 0xAABBCCDD);
    assert_eq!(derive_seed(2), 0);
}

#[test]
fn seed_zero_first_byte_is_zero() {
    // seed 0: the first state is (1103515245 * 0 + 12345) mod 2^32 = 0x3039,
    // whose top byte is 0
    let mut g = LCG::new(0);
    assert_eq!(g.next_byte(), 0x00);
    assert_eq!(g.next_byte(), 0xD3);
}

#[test]
fn same_seed_same_stream() {
    let mut g1 = LCG::new(0xDEADBEEF);
    let mut g2 = LCG::new(0xDEADBEEF);
    for _ in 0..256 {
        assert_eq!(g1.next_byte(), g2.next_byte());
    }
}

#[test]
fn keystream_round_trip_restores_message() {
    let message = b"attack at dawn".to_vec();
    let mut enc = LCG::new(0x12345678);
    let mut dec = LCG::new(0x12345678);
    let cipher = enc.apply_keystream(message.as_slice());
    assert_eq!(cipher.len(), message.len());
    let plain = dec.apply_keystream(cipher.as_slice());
    assert_eq!(plain, message);
}

#[test]
fn hi_round_trip_on_shared_seed() {
    // with the seed both fixed-key peers derive, "hi" survives the trip
    let mut enc = LCG::new(0);
    let mut dec = LCG::new(0);
    let cipher = enc.apply_keystream(b"hi");
    assert_eq!(cipher, vec![104, 186]);
    let plain = dec.apply_keystream(cipher.as_slice());
    assert_eq!(plain, b"hi".to_vec());
}

#[test]
fn alternate_parameters_still_round_trip() {
    let mut enc = LCG::with_params(75, 74, 11);
    let mut dec = LCG::with_params(75, 74, 11);
    let msg = b"parameter swap".to_vec();
    let cipher = enc.apply_keystream(msg.as_slice());
    let plain = dec.apply_keystream(cipher.as_slice());
    assert_eq!(plain, msg);
}

#[test]
fn roles_open_with_mirrored_actions() {
    assert_eq!(Role::FirstSender.first_action(), Action::Send);
    assert_eq!(Role::FirstReceiver.first_action(), Action::Receive);
}

#[test]
fn empty_line_skips_turn_without_touching_generator() {
    let mut skipped = ChatSession::new(Role::FirstSender, 42);
    assert!(skipped.send_turn(b"   \t  \n").is_none());
    assert!(skipped.send_turn(b"").is_none());
    // a fresh session with the same seed produces the same next ciphertext,
    // so the skipped turns consumed no keystream bytes
    let mut fresh = ChatSession::new(Role::FirstSender, 42);
    let after_skip = skipped.send_turn(b"x").unwrap();
    let untouched = fresh.send_turn(b"x").unwrap();
    assert_eq!(after_skip, untouched);
}

#[test]
fn send_turn_strips_trailing_whitespace_only() {
    let mut session = ChatSession::new(Role::FirstSender, 0);
    let cipher = session.send_turn(b"hi  \n").unwrap();
    assert_eq!(cipher, vec![104, 186]);
    // leading whitespace is part of the message: two spaces and "hi" give a
    // four-byte ciphertext under the keystream 00 D3 A7 D6
    let mut leading = ChatSession::new(Role::FirstSender, 0);
    let cipher2 = leading.send_turn(b"  hi\n").unwrap();
    assert_eq!(cipher2, vec![32, 32 ^ 0xD3, 104 ^ 0xA7, 105 ^ 0xD6]);
}

#[test]
fn zero_read_closes_session_without_consuming_keystream() {
    let mut closing = ChatSession::new(Role::FirstReceiver, 7);
    match closing.receive_turn(&[]) {
        ReceiveOutcome::Closed => {}
        ReceiveOutcome::Message(_) => panic!("an empty read must close the session"),
    }
    let mut fresh = ChatSession::new(Role::FirstReceiver, 7);
    let a = closing.send_turn(b"still here").unwrap();
    let b = fresh.send_turn(b"still here").unwrap();
    assert_eq!(a, b);
}

#[test]
fn two_sessions_converse() {
    let seed = 0xCAFEBABE;
    let mut alice = ChatSession::new(Role::FirstSender, seed);
    let mut bob = ChatSession::new(Role::FirstReceiver, seed);
    let wire = alice.send_turn(b"hello bob\n").unwrap();
    match bob.receive_turn(wire.as_slice()) {
        ReceiveOutcome::Message(plain) => assert_eq!(plain, b"hello bob".to_vec()),
        ReceiveOutcome::Closed => panic!("bytes arrived, the session must continue"),
    }
    let wire2 = bob.send_turn(b"hello alice\n").unwrap();
    match alice.receive_turn(wire2.as_slice()) {
        ReceiveOutcome::Message(plain) => assert_eq!(plain, b"hello alice".to_vec()),
        ReceiveOutcome::Closed => panic!("bytes arrived, the session must continue"),
    }
}

#[test]
fn ciphertext_length_equals_plaintext_length() {
    let mut session = ChatSession::new(Role::FirstSender, 9);
    let cipher = session.send_turn(b"0123456789").unwrap();
    assert_eq!(cipher.len(), 10);
}

#[test]
fn word_frequency_counts_words() {
    let counts = count_word_frequency("a bb bb ccc a bb", 1, false);
    assert_eq!(counts.get("a"), Some(&2));
    assert_eq!(counts.get("bb"), Some(&3));
    assert_eq!(counts.get("ccc"), Some(&1));
    assert_eq!(counts.len(), 3);
}

#[test]
fn word_frequency_min_length_filters() {
    let counts = count_word_frequency("a bb ccc", 2, false);
    assert_eq!(counts.get("a"), None);
    assert_eq!(counts.get("bb"), Some(&1));
    assert_eq!(counts.get("ccc"), Some(&1));
}

#[test]
fn word_frequency_folds_case_after_filtering() {
    let counts = count_word_frequency("Rust rust RUST", 1, true);
    assert_eq!(counts.get("rust"), Some(&3));
    assert_eq!(counts.len(), 1);
    let exact = count_word_frequency("Rust rust RUST", 1, false);
    assert_eq!(exact.len(), 3);
}

#[test]
fn word_frequency_empty_text() {
    let counts = count_word_frequency("", 1, false);
    assert!(counts.is_empty());
}

#[test]
fn parse_offset_decimal_and_hex() {
    assert_eq!(cipherchat::offset::parse_offset("16"), Ok(16));
    assert_eq!(cipherchat::offset::parse_offset("0x10"), Ok(16));
    assert_eq!(cipherchat::offset::parse_offset("  42  "), Ok(42));
    assert_eq!(cipherchat::offset::parse_offset("+7"), Ok(7));
    assert_eq!(cipherchat::offset::parse_offset("0xFf"), Ok(255));
    assert_eq!(cipherchat::offset::parse_offset("0"), Ok(0));
    assert_eq!(
        cipherchat::offset::parse_offset("18446744073709551615"),
        Ok(u64::MAX)
    );
}

#[test]
fn parse_offset_rejects_bad_input() {
    assert_eq!(
        cipherchat::offset::parse_offset("x10"),
        Err("Invalid offset: x10".to_string())
    );
    assert_eq!(
        cipherchat::offset::parse_offset(""),
        Err("Invalid offset: ".to_string())
    );
    assert_eq!(
        cipherchat::offset::parse_offset("0x"),
        Err("Invalid offset: 0x".to_string())
    );
    assert_eq!(
        cipherchat::offset::parse_offset("-5"),
        Err("Invalid offset: -5".to_string())
    );
    assert_eq!(
        cipherchat::offset::parse_offset("18446744073709551616"),
        Err("Invalid offset: 18446744073709551616".to_string())
    );
    assert_eq!(
        cipherchat::offset::parse_offset("12a"),
        Err("Invalid offset: 12a".to_string())
    );
}

#[test]
fn parse_offset_trims_unicode_whitespace() {
    assert_eq!(cipherchat::offset::parse_offset("\u{a0}5"), Ok(5));
    assert_eq!(cipherchat::offset::parse_offset("\u{3000}0x2a\u{2028}"), Ok(42));
    assert_eq!(
        cipherchat::offset::parse_offset("\u{a0}x\u{a0}"),
        Err("Invalid offset: x".to_string())
    );
}

#[test]
fn word_frequency_distinct_entries_after_folding() {
    let counts = count_word_frequency("a bb A a", 1, true);
    assert_eq!(counts.len(), 2);
    assert_eq!(counts.get("a"), Some(&3));
    assert_eq!(counts.get("bb"), Some(&1));
}

#[test]
fn parse_offset_rejection_quotes_trimmed_text() {
    assert_eq!(
        cipherchat::offset::parse_offset("  x  "),
        Err("Invalid offset: x".to_string())
    );
    assert_eq!(
        cipherchat::offset::parse_offset(" 0x \n"),
        Err("Invalid offset: 0x".to_string())
    );
}

#[test]
fn greeting_default_and_named() {
    assert_eq!(cipherchat::greeting::build_greeting(None, false), "Hello, World!");
    assert_eq!(cipherchat::greeting::build_greeting(Some("Ann"), false), "Hello, Ann!");
    assert_eq!(cipherchat::greeting::build_greeting(Some("bob"), true), "HELLO, BOB!");
    assert_eq!(cipherchat::greeting::build_greeting(None, true), "HELLO, WORLD!");
}

#[test]
fn hex_dump_one_line() {
    let lines = cipherchat::hexdump::hex_dump(&[0x00, 0x41, 0x7f, 0x20], 0x10);
    assert_eq!(lines.len(), 1);
    assert_eq!(
        String::from_utf8(lines[0].clone()).unwrap(),
        "00000010: 00 41 7f 20                                     |.A. |"
    );
}

#[test]
fn hex_dump_line_count_and_offsets() {
    let data = vec![0xABu8; 17];
    let lines = cipherchat::hexdump::hex_dump(&data, 0);
    assert_eq!(lines.len(), 2);
    let first = String::from_utf8(lines[0].clone()).unwrap();
    let second = String::from_utf8(lines[1].clone()).unwrap();
    assert!(first.starts_with("00000000: ab ab"));
    assert!(second.starts_with("00000010: ab    "));
    assert!(second.ends_with("|.|"));
    let empty = cipherchat::hexdump::hex_dump(&[], 0);
    assert!(empty.is_empty());
}

#[test]
fn hex_tokens_parse_to_bytes() {
    assert_eq!(
        cipherchat::hexbytes::parse_hex_bytes("0a ff 7"),
        Some(vec![10, 255, 7])
    );
    assert_eq!(cipherchat::hexbytes::parse_hex_bytes(""), Some(Vec::new()));
    assert_eq!(cipherchat::hexbytes::parse_hex_bytes("0a zz"), None);
    assert_eq!(cipherchat::hexbytes::parse_hex_bytes("100"), None);
    assert_eq!(cipherchat::hexbytes::parse_hex_byte("ff"), Some(255));
    assert_eq!(cipherchat::hexbytes::parse_hex_byte(""), None);
}

#[test]
fn sort_orders_counts_descending() {
    let pairs = vec![
        ("a".to_string(), 2u32),
        ("b".to_string(), 5u32),
        ("c".to_string(), 3u32),
        ("d".to_string(), 5u32),
    ];
    let sorted = cipherchat::ranking::sort_by_count_desc(pairs);
    let counts: Vec<u32> = sorted.iter().map(|p| p.1).collect();
    assert_eq!(counts, vec![5, 5, 3, 2]);
    let mut names: Vec<String> = sorted.into_iter().map(|p| p.0).collect();
    names.sort();
    assert_eq!(names, vec!["a", "b", "c", "d"]);
}
