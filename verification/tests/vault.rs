use rvault::clipboard::{expose_step, run_wait_schedule, wait_step, SessionAction, SessionState,
    WaitEvent, EXPOSURE_MS};
use rvault::commands::{add, copy, get_secret_path, VaultConfig};
use rvault::errors::VaultError;
use rvault::gateway::{decrypt_args, decrypt_outcome, encrypt_args, encrypt_outcome,
    keylist_outcome};
use rvault::identity::{parse_binding, read_id, serialize_binding};
use rvault::keydir::parse_secret_keys;
use rvault::otp::{classify, current_code, extract_payload, provision, select_decoded, Payload};
use rvault::store::{is_valid_name, is_valid_stored_name, list_passwords, names_from_entries,
    resolve, resolve_stored};

fn config(vault: &str, ask_password: bool, key_id: &str) -> VaultConfig {
    VaultConfig { vault: vault.to_string(), ask_password, key_id: key_id.to_string() }
}

// Name validation and resolution

#[test]
fn valid_names_accepted() {
    assert!(is_valid_name("foo"));
    assert!(is_valid_name("My Bank 2024_backup-key"));
    assert!(!is_valid_name(""));
    assert!(!is_valid_name("a/b"));
    assert!(!is_valid_name(".."));
    assert!(!is_valid_name("a.b"));
    assert!(!is_valid_name("a\\b"));
}

#[test]
fn resolve_joins_root_name_suffix() {
    let p = resolve(&"/home/u/.vault".to_string(), &"foo".to_string()).unwrap();
    assert_eq!(p, "/home/u/.vault/foo.gpg");
}

#[test]
fn resolve_rejects_traversal() {
    assert_eq!(
        resolve(&"/v".to_string(), &"a/b".to_string()),
        Err(VaultError::InvalidName)
    );
    assert_eq!(
        resolve(&"/v".to_string(), &"../escape".to_string()),
        Err(VaultError::InvalidName)
    );
    assert_eq!(
        resolve(&"/v".to_string(), &"..".to_string()),
        Err(VaultError::InvalidName)
    );
}

#[test]
fn stored_names_allow_namespaces_but_not_traversal() {
    assert!(is_valid_stored_name("foo"));
    assert!(is_valid_stored_name("otp/Example/alice"));
    assert!(is_valid_stored_name("otp/Example/alice@example.org"));
    assert!(!is_valid_stored_name(""));
    assert!(!is_valid_stored_name("a//b"));
    assert!(!is_valid_stored_name("otp/../alice"));
    assert!(!is_valid_stored_name("./a"));
    assert!(!is_valid_stored_name("a\\b"));
    assert!(!is_valid_stored_name("a/"));
}

#[test]
fn resolve_stored_joins_namespaced_names() {
    let p = resolve_stored(&"/v".to_string(), &"otp/Example/alice".to_string()).unwrap();
    assert_eq!(p, "/v/otp/Example/alice.gpg");
    assert_eq!(
        resolve_stored(&"/v".to_string(), &"otp/../x".to_string()),
        Err(VaultError::InvalidName)
    );
}

#[test]
fn store_then_list_round_trips_name() {
    let root = "/home/u/.vault".to_string();
    let path = resolve(&root, &"foo".to_string()).unwrap();
    let names = names_from_entries(&root, &vec![(path, true)]);
    assert_eq!(names, vec!["foo".to_string()]);
}

#[test]
fn stored_name_is_listed_exactly_once() {
    let root = "/v".to_string();
    let path = resolve(&root, &"foo".to_string()).unwrap();
    let entries = vec![
        ("/v".to_string(), false),
        (path, true),
        ("/v/other.gpg".to_string(), true),
        ("/v/foo.txt".to_string(), true),
    ];
    let names = names_from_entries(&root, &entries);
    assert_eq!(names.iter().filter(|n| n.as_str() == "foo").count(), 1);
}

#[test]
fn list_skips_directories_and_foreign_files() {
    let root = "/v".to_string();
    let entries = vec![
        ("/v".to_string(), false),
        ("/v/notes.txt".to_string(), true),
        ("/v/a.gpg".to_string(), true),
        ("/v/sub".to_string(), false),
        ("/v/sub/b.gpg".to_string(), true),
        ("/v/sub/c.gpg".to_string(), false),
    ];
    let names = names_from_entries(&root, &entries);
    assert_eq!(names, vec!["a".to_string(), "sub/b".to_string()]);
}

#[test]
fn list_normalizes_platform_separators() {
    let root = "C:\\v".to_string();
    let entries = vec![("C:\\v\\sub\\b.gpg".to_string(), true)];
    assert_eq!(names_from_entries(&root, &entries), vec!["sub/b".to_string()]);
}

#[test]
fn list_passwords_of_missing_root_is_empty() {
    // The walk of a directory that does not exist yields no readable entries.
    let names = list_passwords(&"/nonexistent-vault-root-for-tests".to_string());
    assert!(names.is_empty());
}

// Identity binding

#[test]
fn read_before_write_is_not_initialized() {
    assert_eq!(read_id(&None), Err(VaultError::NotInitialized));
}

#[test]
fn write_then_read_returns_key_id() {
    let written = serialize_binding("KEYID");
    assert_eq!(written, "{\"id\":\"KEYID\"}");
    assert_eq!(read_id(&Some(written)), Ok("KEYID".to_string()));
}

#[test]
fn binding_round_trips_awkward_ids() {
    for id in ["", "0123ABCD", "we\"ird", "back\\slash", "mix\\\"ed", "tab\there", "nl\nnl", "\u{1}"] {
        let written = serialize_binding(id);
        assert_eq!(parse_binding(&written), Ok(id.to_string()));
    }
}

#[test]
fn binding_writer_escapes_control_characters() {
    assert_eq!(serialize_binding("a\nb"), "{\"id\":\"a\\u000ab\"}");
}

#[test]
fn binding_reader_accepts_json_variants() {
    assert_eq!(parse_binding("{\"id\": \"K\"}"), Ok("K".to_string()));
    assert_eq!(
        parse_binding(" \t{ \"id\"\n: \"K\" }\r\n"),
        Ok("K".to_string())
    );
    assert_eq!(parse_binding("{\"id\":\"a\\nb\"}"), Ok("a\nb".to_string()));
    assert_eq!(parse_binding("{\"id\":\"\\u0041\"}"), Ok("A".to_string()));
    assert_eq!(
        parse_binding("{\"id\":\"\\ud83d\\ude00\"}"),
        Ok("\u{1F600}".to_string())
    );
    assert_eq!(parse_binding("{\"id\":\"a\\/b\"}"), Ok("a/b".to_string()));
    assert_eq!(parse_binding("{\"id\": 42}"), Ok("42".to_string()));
    assert_eq!(parse_binding("{\"id\": -7}"), Ok("-7".to_string()));
}

#[test]
fn malformed_binding_is_not_initialized() {
    for s in [
        "",
        "{}",
        "not json",
        "{\"id\":\"unterminated",
        "{\"id\":\"bad\\x\"}",
        "{\"id\":null}",
        "{\"id\":}",
        "{id:\"K\"}",
        "{\"id\":\"\\ud800\"}",
        "{\"id\":\"K\"} trailing",
    ] {
        assert_eq!(parse_binding(s), Err(VaultError::NotInitialized));
    }
}

// Key directory parsing

#[test]
fn two_records_do_not_cross_contaminate() {
    let listing = "sec:u:4096:1:0123456789ABCDEF:1600000000:::u:::scESC:::+:::23::0:\n\
                   uid:u::::1600000000::HASH1::Alice <alice@example.org>::::::::::0:\n\
                   sec:u:4096:1:FEDCBA9876543210:1600000001:::u:::scESC:::+:::23::0:\n\
                   uid:u::::1600000001::HASH2::Bob <bob@example.org>::::::::::0:\n";
    let keys = parse_secret_keys(listing);
    assert_eq!(keys.len(), 2);
    assert_eq!(keys[0].id, "0123456789ABCDEF");
    assert_eq!(keys[0].name, "Alice <alice@example.org>");
    assert_eq!(keys[1].id, "FEDCBA9876543210");
    assert_eq!(keys[1].name, "Bob <bob@example.org>");
}

#[test]
fn several_uid_lines_join_with_comma() {
    let listing = "sec:u:4096:1:AAAA:0:::u:::scESC:::+:::23::0:\n\
                   uid:u::::0::H::First <one@example.org>::::::::::0:\n\
                   uid:u::::0::H::Second <two@example.org>::::::::::0:\n";
    let keys = parse_secret_keys(listing);
    assert_eq!(keys.len(), 1);
    assert_eq!(keys[0].id, "AAAA");
    assert_eq!(keys[0].name, "First <one@example.org>, Second <two@example.org>");
}

#[test]
fn malformed_lines_are_skipped_not_fatal() {
    // An opening line with too few fields is skipped; a label line before any
    // identity is dropped; unrelated record types are ignored.
    let listing = "uid:u::::0::H::Orphan <o@example.org>::::::::::0:\n\
                   sec:short\n\
                   tru::1:1600000000:0:3:1:5\n\
                   sec:u:4096:1:CCCC:0:::u:::scESC:::+:::23::0:\n\
                   ssb:u:4096:1:DDDD:0:::u:::e:::+:::23:\n\
                   uid:u::::0::H::Carol <c@example.org>::::::::::0:\n";
    let keys = parse_secret_keys(listing);
    assert_eq!(keys.len(), 1);
    assert_eq!(keys[0].id, "CCCC");
    assert_eq!(keys[0].name, "Carol <c@example.org>");
}

#[test]
fn empty_listing_yields_no_records() {
    assert_eq!(parse_secret_keys("").len(), 0);
}

#[test]
fn key_display_string_shows_id_and_name() {
    let keys = parse_secret_keys(
        "sec:u:4096:1:AAAA:0:::u:::scESC:::+:::23::0:\n\
         uid:u::::0::H::Alice::::::::::0:\n",
    );
    assert_eq!(keys[0].display_string(), "(AAAA, Alice)");
}

// Secret kind resolution

#[test]
fn classify_otp_uri_and_plain() {
    let uri = "otpauth://totp/Issuer:user?secret=ABC&period=30";
    match classify(uri) {
        Payload::OtpUri { uri: u } => assert_eq!(u, uri),
        Payload::Plain { .. } => panic!("provisioning URI classified as plain"),
    }
    match classify("hunter2") {
        Payload::Plain { value } => assert_eq!(value, "hunter2"),
        Payload::OtpUri { .. } => panic!("plain secret classified as provisioning URI"),
    }
}

#[test]
fn current_code_matches_reference_vector() {
    // HMAC-SHA1, 6 digits, 30 s period, over the 20-byte ASCII key
    // "12345678901234567890" at 59 s: the classic reference code.
    let uri = "otpauth://totp/Example:alice?secret=GEZDGNBVGY3TQOJQGEZDGNBVGY3TQOJQ&digits=6&period=30&algorithm=SHA1";
    assert_eq!(current_code(uri, 59), Ok("287082".to_string()));
}

#[test]
fn current_code_second_vector() {
    let uri = "otpauth://totp/Github:constantoine%40github.com?secret=KRSXG5CTMVRXEZLUKN2XAZLSKNSWG4TFOQ&period=1";
    assert_eq!(current_code(uri, 1000), Ok("659761".to_string()));
}

#[test]
fn current_code_rejects_invalid_uris() {
    // A missing shared secret, an unsupported kind, a zero period, and an
    // absurd digit count all fail with the computation error instead of
    // panicking.
    for uri in [
        "otpauth://totp/Issuer:user?period=30",
        "otpauth://hotp/Issuer:user?secret=GEZDGNBVGY3TQOJQGEZDGNBVGY3TQOJQ",
        "otpauth://totp/Issuer:user?secret=GEZDGNBVGY3TQOJQGEZDGNBVGY3TQOJQ&period=0",
        "otpauth://totp/Issuer:user?secret=GEZDGNBVGY3TQOJQ&digits=10",
        "otpauth://totp/Issuer:user?secret=GEZDGNBVGY3TQOJQ&digits=0",
        "hunter2",
    ] {
        assert_eq!(current_code(uri, 59), Err(VaultError::OtpComputationError));
    }
}

#[test]
fn current_code_accepts_short_secrets() {
    // An 80-bit shared secret is shorter than the RFC recommends but real
    // providers hand them out; codes still derive.
    let uri = "otpauth://totp/Example:alice?secret=GEZDGNBVGY3TQOJQ&digits=6&period=30";
    assert_eq!(current_code(uri, 59), Ok("263420".to_string()));
}

#[test]
fn current_code_ignores_scheme_and_host_case() {
    let uri = "OTPAuth://TOTP/Example:alice?secret=GEZDGNBVGY3TQOJQGEZDGNBVGY3TQOJQ&digits=6&period=30";
    assert_eq!(current_code(uri, 59), Ok("287082".to_string()));
}

#[test]
fn extract_payload_plain_passes_through() {
    assert_eq!(extract_payload("hunter2", 59), Ok("hunter2".to_string()));
}

#[test]
fn extract_payload_derives_code() {
    let uri = "otpauth://totp/Example:alice?secret=GEZDGNBVGY3TQOJQGEZDGNBVGY3TQOJQ&digits=6&period=30";
    assert_eq!(extract_payload(uri, 59), Ok("287082".to_string()));
}

#[test]
fn provision_derives_namespaced_logical_name() {
    let uri = "otpauth://totp/Example:alice?secret=GEZDGNBVGY3TQOJQGEZDGNBVGY3TQOJQ";
    let enr = provision(uri).unwrap();
    assert_eq!(enr.logical_name, "otp/Example/alice");
    assert_eq!(enr.plaintext, uri);
}

#[test]
fn provision_rejects_uri_without_issuer() {
    let uri = "otpauth://totp/alice?secret=GEZDGNBVGY3TQOJQGEZDGNBVGY3TQOJQ";
    assert_eq!(provision(uri).unwrap_err(), VaultError::InvalidOtpUri);
}

#[test]
fn provision_rejects_unparseable_uri() {
    assert_eq!(provision("hunter2").unwrap_err(), VaultError::InvalidOtpUri);
    assert_eq!(
        provision("otpauth://totp/Example:alice?period=30").unwrap_err(),
        VaultError::InvalidOtpUri
    );
}

#[test]
fn provision_rejects_traversing_segments() {
    // A decoded issuer of ".." would step out of the otp namespace.
    let uri = "otpauth://totp/..:alice?secret=GEZDGNBVGY3TQOJQGEZDGNBVGY3TQOJQ";
    assert_eq!(provision(uri).unwrap_err(), VaultError::InvalidOtpUri);
}

#[test]
fn select_decoded_takes_exactly_one_payload() {
    assert_eq!(
        select_decoded(&vec![Some("otpauth://totp/a".to_string())]),
        Ok("otpauth://totp/a".to_string())
    );
    assert_eq!(select_decoded(&vec![]), Err(VaultError::OtpDecodeError));
    assert_eq!(
        select_decoded(&vec![Some("a".to_string()), Some("b".to_string())]),
        Err(VaultError::OtpDecodeError)
    );
    assert_eq!(select_decoded(&vec![None]), Err(VaultError::OtpDecodeError));
}

// Clipboard exposure session

#[test]
fn exposure_budget_is_ten_seconds() {
    assert_eq!(EXPOSURE_MS, 10000);
}

#[test]
fn expose_failure_is_unavailable_and_still_clears() {
    let (state, action, err) = expose_step(false, 0);
    assert_eq!(state, SessionState::Cleared);
    assert_eq!(action, SessionAction::ClearNow);
    assert_eq!(err, Some(VaultError::ClipboardUnavailable));
}

#[test]
fn cancellation_clears_at_two_seconds_not_ten() {
    let (state, action, err) = expose_step(true, 0);
    assert_eq!(state, SessionState::Exposed { start_ms: 0 });
    assert_eq!(action, SessionAction::WaitInput { ms: 10000 });
    assert_eq!(err, None);
    let (state, cleared_at) = run_wait_schedule(0, &vec![(2000, WaitEvent::KeySignal)]);
    assert_eq!(state, SessionState::Cleared);
    assert_eq!(cleared_at, Some(2000));
}

#[test]
fn no_signal_clears_at_ten_seconds() {
    let (state, cleared_at) = run_wait_schedule(0, &vec![(10000, WaitEvent::TimedOut)]);
    assert_eq!(state, SessionState::Cleared);
    assert_eq!(cleared_at, Some(10000));
}

#[test]
fn other_input_waits_exactly_the_remaining_budget() {
    let (state, action) = wait_step(0, 3000, &WaitEvent::OtherInput);
    assert_eq!(state, SessionState::Exposed { start_ms: 0 });
    assert_eq!(action, SessionAction::WaitInput { ms: 7000 });
    // Once the budget is gone, even an ordinary event closes the window.
    let (state, action) = wait_step(0, 10000, &WaitEvent::OtherInput);
    assert_eq!(state, SessionState::Cleared);
    assert_eq!(action, SessionAction::ClearNow);
}

#[test]
fn failed_event_source_still_clears() {
    let (state, cleared_at) = run_wait_schedule(0, &vec![(1500, WaitEvent::Failed)]);
    assert_eq!(state, SessionState::Cleared);
    assert_eq!(cleared_at, Some(1500));
}

#[test]
fn wait_survives_ordinary_events_until_cancellation() {
    let schedule = vec![
        (1000, WaitEvent::OtherInput),
        (2500, WaitEvent::OtherInput),
        (4000, WaitEvent::KeySignal),
        (9000, WaitEvent::KeySignal),
    ];
    let (state, cleared_at) = run_wait_schedule(0, &schedule);
    assert_eq!(state, SessionState::Cleared);
    assert_eq!(cleared_at, Some(4000));
}

// Encryption gateway plans and outcomes

#[test]
fn encrypt_args_name_the_recipient() {
    let args = encrypt_args(&"0123ABCD".to_string());
    assert_eq!(args, vec!["--batch", "--encrypt", "--recipient", "0123ABCD"]);
}

#[test]
fn decrypt_args_without_passphrase() {
    let args = decrypt_args(false, &"/v/foo.gpg".to_string());
    assert_eq!(args, vec!["--decrypt", "/v/foo.gpg"]);
}

#[test]
fn decrypt_args_pass_the_passphrase_over_loopback_not_argv() {
    let args = decrypt_args(true, &"/v/foo.gpg".to_string());
    assert_eq!(
        args,
        vec![
            "--decrypt",
            "--batch",
            "--pinentry-mode",
            "loopback",
            "--passphrase-fd",
            "0",
            "/v/foo.gpg"
        ]
    );
}

#[test]
fn outcomes_follow_the_exit_code() {
    assert_eq!(decrypt_outcome(0, "pw".to_string()), Ok("pw".to_string()));
    assert_eq!(
        decrypt_outcome(2, "garbage".to_string()),
        Err(VaultError::DecryptionFailed)
    );
    assert_eq!(encrypt_outcome(0, vec![1, 2, 3]), Ok(vec![1, 2, 3]));
    assert_eq!(encrypt_outcome(1, vec![]), Err(VaultError::EncryptionFailed));
    assert_eq!(keylist_outcome(0, "sec:".to_string()), Ok("sec:".to_string()));
    assert_eq!(
        keylist_outcome(1, "".to_string()),
        Err(VaultError::KeyToolError)
    );
}

// Command planning

#[test]
fn get_secret_path_resolves_under_vault() {
    let cfg = config("/v", false, "KEY");
    assert_eq!(
        get_secret_path(&"foo".to_string(), &cfg),
        Ok("/v/foo.gpg".to_string())
    );
    assert_eq!(
        get_secret_path(&"otp/Example/alice".to_string(), &cfg),
        Ok("/v/otp/Example/alice.gpg".to_string())
    );
    assert_eq!(
        get_secret_path(&"../x".to_string(), &cfg),
        Err(VaultError::InvalidName)
    );
    assert_eq!(
        get_secret_path(&"a//b".to_string(), &cfg),
        Err(VaultError::InvalidName)
    );
}

#[test]
fn add_plans_path_and_encryption() {
    let cfg = config("/v", false, "KEY");
    let plan = add(&cfg, &"foo".to_string()).unwrap();
    assert_eq!(plan.path, "/v/foo.gpg");
    assert_eq!(plan.args, vec!["--batch", "--encrypt", "--recipient", "KEY"]);
    assert_eq!(
        add(&cfg, &"a/b".to_string()).unwrap_err(),
        VaultError::InvalidName
    );
}

#[test]
fn copy_plans_path_and_decryption() {
    let cfg = config("/v", true, "KEY");
    let plan = copy(&cfg, &"foo".to_string()).unwrap();
    assert_eq!(plan.path, "/v/foo.gpg");
    assert_eq!(
        plan.args,
        vec![
            "--decrypt",
            "--batch",
            "--pinentry-mode",
            "loopback",
            "--passphrase-fd",
            "0",
            "/v/foo.gpg"
        ]
    );
    let cfg = config("/v", false, "KEY");
    let plan = copy(&cfg, &"foo".to_string()).unwrap();
    assert_eq!(plan.args, vec!["--decrypt", "/v/foo.gpg"]);
    assert_eq!(
        copy(&cfg, &"otp/../b".to_string()).unwrap_err(),
        VaultError::InvalidName
    );
}

#[test]
fn enrolled_record_is_retrievable() {
    // The name an enrollment derives resolves for show, clip and remove.
    let uri = "otpauth://totp/Example:alice?secret=GEZDGNBVGY3TQOJQGEZDGNBVGY3TQOJQ";
    let enr = provision(uri).unwrap();
    let cfg = config("/v", false, "KEY");
    let plan = copy(&cfg, &enr.logical_name).unwrap();
    assert_eq!(plan.path, "/v/otp/Example/alice.gpg");
    assert_eq!(
        get_secret_path(&enr.logical_name, &cfg),
        Ok("/v/otp/Example/alice.gpg".to_string())
    );
}

// Error messages

#[test]
fn error_messages_are_fixed_per_kind() {
    assert_eq!(VaultError::NotInitialized.message(), "vault is not initialized");
    assert_eq!(VaultError::InvalidName.message(), "invalid secret name");
    assert_eq!(VaultError::NotFound.message(), "secret not found");
    assert_eq!(VaultError::IoError.message(), "filesystem error");
}
