//! The key file of a self-hosted agent: what is asked for on the command line, and what
//! is printed.

use crate::text::texts;
use crate::text::trim;
use crate::text::trimmed;
use vstd::prelude::*;
use vstd::string::*;

verus! {

/// What a new identity is made for.
pub struct ProvisionRequest {
    /// The owner's secret key, in hexadecimal or as `nsec`.
    pub owner_secret: String,
    /// The conditions of the authorization; empty where there are none.
    pub conditions: String,
}

/// A new identity.
pub struct Identity {
    /// The agent's public key in hexadecimal.
    pub public_key: String,
    /// The agent's secret key in hexadecimal.
    pub secret_key: String,
    /// The agent's public key as `npub`.
    pub npub: String,
    /// The owner's public key in hexadecimal.
    pub owner: String,
    /// The authorization of the agent by its owner, as JSON.
    pub auth_tag: String,
}

/// How the program is called.
pub open spec fn usage_of(program: Seq<char>) -> Seq<char> {
    "Usage: "@ + program + " <owner_secret_hex_or_nsec> [conditions]"@
}

/// Reads the command line, which starts with the program's name. Without an owner's
/// secret the answer is how the program is called.
pub fn parse_args(args: &Vec<String>) -> (request: Result<ProvisionRequest, String>)
    requires
        args@.len() > 0,
    ensures
        match request {
            Ok(request) => {
                &&& args@.len() >= 2
                &&& request.owner_secret@ == trimmed(args@[1]@)
                &&& request.conditions@ == (if args@.len() >= 3 {
                    args@[2]@
                } else {
                    Seq::empty()
                })
            },
            Err(usage) => args@.len() < 2 && usage@ == usage_of(args@[0]@),
        },
{
    if args.len() < 2 {
        let mut usage = "Usage: ".to_owned();
        usage.append(args[0].as_str());
        usage.append(" <owner_secret_hex_or_nsec> [conditions]");
        return Err(usage);
    }
    let owner_secret = trim(args[1].as_str()).to_owned();
    let conditions = if args.len() >= 3 {
        args[2].clone()
    } else {
        String::new()
    };
    Ok(ProvisionRequest { owner_secret, conditions })
}

/// The lines of an identity's key file.
pub open spec fn key_file_of(identity: Identity) -> Seq<Seq<char>> {
    seq![
        "Public key:  "@ + identity.public_key@,
        "Secret key:  "@ + identity.secret_key@,
        "npub:        "@ + identity.npub@,
        "Owner:       "@ + identity.owner@,
        "Auth tag:    "@ + identity.auth_tag@,
        Seq::empty(),
        "Set BUZZ_PRIVATE_KEY to the secret key to use this identity."@,
    ]
}

/// A label and its value.
fn labelled(label: &str, value: &String) -> (line: String)
    ensures
        line@ == label@ + value@,
{
    let mut line = label.to_owned();
    line.append(value.as_str());
    line
}

/// The lines of an identity's key file.
pub fn key_file(identity: &Identity) -> (lines: Vec<String>)
    ensures
        texts(lines@) == key_file_of(*identity),
{
    let lines = vec![
        labelled("Public key:  ", &identity.public_key),
        labelled("Secret key:  ", &identity.secret_key),
        labelled("npub:        ", &identity.npub),
        labelled("Owner:       ", &identity.owner),
        labelled("Auth tag:    ", &identity.auth_tag),
        String::new(),
        "Set BUZZ_PRIVATE_KEY to the secret key to use this identity.".to_owned(),
    ];
    assert(texts(lines@) =~= key_file_of(*identity));
    lines
}

/// The command line gives the owner's secret, without white space around it, and the
/// conditions as they are, or none; without a secret the program says how it is called.
pub proof fn law_command_line(args: &Vec<String>, request: Result<ProvisionRequest, String>)
    requires
        args@.len() > 0,
        call_ensures(parse_args, (args,), request),
    ensures
        request is Ok <==> args@.len() >= 2,
        request is Ok ==> request->Ok_0.owner_secret@ == trimmed(args@[1]@),
        request is Ok && args@.len() >= 3 ==> request->Ok_0.conditions@ == args@[2]@,
        request is Ok && args@.len() < 3 ==> request->Ok_0.conditions@.len() == 0,
        request is Err ==> request->Err_0@ == "Usage: "@ + args@[0]@
            + " <owner_secret_hex_or_nsec> [conditions]"@,
{
}

/// The key file has a line for each part of the identity behind its label, an empty line and
/// what the secret key is for.
pub proof fn law_key_file_lists_the_identity(identity: &Identity, lines: Vec<String>)
    requires
        call_ensures(key_file, (identity,), lines),
    ensures
        lines@.len() == 7,
        lines@[0]@ == "Public key:  "@ + identity.public_key@,
        lines@[1]@ == "Secret key:  "@ + identity.secret_key@,
        lines@[2]@ == "npub:        "@ + identity.npub@,
        lines@[3]@ == "Owner:       "@ + identity.owner@,
        lines@[4]@ == "Auth tag:    "@ + identity.auth_tag@,
        lines@[5]@.len() == 0,
        lines@[6]@ == "Set BUZZ_PRIVATE_KEY to the secret key to use this identity."@,
{
    let all = texts(lines@);
    assert(all.len() == lines@.len());
    assert(all[0] == lines@[0]@ && all[1] == lines@[1]@ && all[2] == lines@[2]@ && all[3]
        == lines@[3]@);
    assert(all[4] == lines@[4]@ && all[5] == lines@[5]@ && all[6] == lines@[6]@);
}

} // verus!
