use buzz_acp::provision::{key_file, parse_args, Identity};

fn args(list: &[&str]) -> Vec<String> {
    list.iter().map(|s| s.to_string()).collect()
}

#[test]
fn an_owner_secret_is_required() {
    match parse_args(&args(&["provision_agent_key"])) {
        Err(usage) => assert_eq!(
            usage,
            "Usage: provision_agent_key <owner_secret_hex_or_nsec> [conditions]"
        ),
        Ok(_) => panic!("a secret was made up"),
    }
}

#[test]
fn the_secret_is_trimmed_and_conditions_are_optional() {
    let request = parse_args(&args(&["p", " nsec1x\n"])).ok().unwrap();
    assert_eq!(request.owner_secret, "nsec1x");
    assert_eq!(request.conditions, "");
    let request = parse_args(&args(&["p", "nsec1x", " kind=1 ", "more"])).ok().unwrap();
    assert_eq!(request.conditions, " kind=1 ");
}

#[test]
fn the_key_file_lists_the_identity() {
    let lines = key_file(&Identity {
        public_key: "pk".to_owned(),
        secret_key: "sk".to_owned(),
        npub: "npub1".to_owned(),
        owner: "ow".to_owned(),
        auth_tag: "[]".to_owned(),
    });
    assert_eq!(
        lines,
        vec![
            "Public key:  pk",
            "Secret key:  sk",
            "npub:        npub1",
            "Owner:       ow",
            "Auth tag:    []",
            "",
            "Set BUZZ_PRIVATE_KEY to the secret key to use this identity.",
        ]
    );
}
