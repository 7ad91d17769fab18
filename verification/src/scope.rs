//! What a session answers: a whole conversation, or one thread of it.

use crate::hex::hyphenated;
use crate::hex::law_hyphenated_injective;
use crate::hex::lemma_hyphenated_len;
use crate::hex::uuid_text;
use vstd::prelude::*;
use vstd::string::*;

verus! {

/// The place that one session answers.
#[derive(Debug)]
pub enum SessionScope {
    /// A channel read as one flat conversation.
    Conversation { channel_id: u128 },
    /// The thread of a channel that starts at one event.
    Thread { channel_id: u128, root_event_id: String },
}

impl View for SessionScope {
    type V = (u128, Option<Seq<char>>);

    /// The channel, and the root event of a thread.
    open spec fn view(&self) -> (u128, Option<Seq<char>>) {
        match self {
            SessionScope::Conversation { channel_id } => (*channel_id, None),
            SessionScope::Thread { channel_id, root_event_id } => (
                *channel_id,
                Some(root_event_id@),
            ),
        }
    }
}

/// The key under which the session of a scope is kept.
pub open spec fn key_of(scope: (u128, Option<Seq<char>>)) -> Seq<char> {
    match scope.1 {
        None => "conversation:"@ + hyphenated(scope.0),
        Some(root) => "thread:"@ + hyphenated(scope.0) + ":"@ + root,
    }
}

/// The key under which the session of a scope is kept.
pub fn scope_key(scope: &SessionScope) -> (key: String)
    ensures
        key@ == key_of(scope@),
{
    match scope {
        SessionScope::Conversation { channel_id } => {
            let mut key = "conversation:".to_owned();
            key.append(uuid_text(*channel_id).as_str());
            key
        },
        SessionScope::Thread { channel_id, root_event_id } => {
            let mut key = "thread:".to_owned();
            key.append(uuid_text(*channel_id).as_str());
            key.append(":");
            key.append(root_event_id.as_str());
            key
        },
    }
}

/// Different scopes are kept under different keys.
pub proof fn law_scopes_do_not_collide(
    a: (u128, Option<Seq<char>>),
    b: (u128, Option<Seq<char>>),
)
    requires
        key_of(a) == key_of(b),
    ensures
        a == b,
{
    reveal_strlit("conversation:");
    reveal_strlit("thread:");
    reveal_strlit(":");
    lemma_hyphenated_len(a.0);
    lemma_hyphenated_len(b.0);
    let x = key_of(a);
    let y = key_of(b);
    assert(a.1 is None <==> x[0] == 'c');
    assert(b.1 is None <==> y[0] == 'c');
    if a.1 is None {
        assert(x.skip(13) =~= hyphenated(a.0));
        assert(y.skip(13) =~= hyphenated(b.0));
    } else {
        assert(x.subrange(7, 43) =~= hyphenated(a.0));
        assert(y.subrange(7, 43) =~= hyphenated(b.0));
        assert(x.skip(44) =~= a.1->0);
        assert(y.skip(44) =~= b.1->0);
    }
    law_hyphenated_injective(a.0, b.0);
}

/// A key says what kind of scope it is for, and a thread's key ends in its root event.
pub proof fn law_keys_are_greppable(channel: u128, root: Seq<char>)
    ensures
        "conversation:"@.is_prefix_of(key_of((channel, None))),
        "thread:"@.is_prefix_of(key_of((channel, Some(root)))),
        (":"@ + root).is_suffix_of(key_of((channel, Some(root)))),
{
    let thread = key_of((channel, Some(root)));
    let tail = ":"@ + root;
    assert(thread.subrange(thread.len() - tail.len(), thread.len() as int) =~= tail);
    assert(thread.subrange(0, "thread:"@.len() as int) =~= "thread:"@);
    let conversation = key_of((channel, None));
    assert(conversation.subrange(0, "conversation:"@.len() as int) =~= "conversation:"@);
}

/// The key of a scope is its kind, the channel's hyphenated id and, for a thread, the root
/// event, set off by colons.
pub proof fn law_key_spells_the_scope(scope: &SessionScope, key: String)
    requires
        call_ensures(scope_key, (scope,), key),
    ensures
        scope is Conversation ==> key@ == "conversation:"@ + hyphenated(
            scope->Conversation_channel_id,
        ),
        scope is Thread ==> key@ == "thread:"@ + hyphenated(scope->Thread_channel_id) + ":"@
            + scope->root_event_id@,
        key@ == key_of(scope@),
{
}

/// Scopes are seen as different exactly where their kinds, channels or root events are.
pub proof fn law_scopes_are_seen_as_they_are(a: SessionScope, b: SessionScope)
    ensures
        a is Conversation && b is Conversation ==> (a@ == b@ <==> a->Conversation_channel_id
            == b->Conversation_channel_id),
        a is Thread && b is Thread ==> (a@ == b@ <==> a->Thread_channel_id == b->Thread_channel_id
            && a->root_event_id@ == b->root_event_id@),
        a is Conversation && b is Thread ==> a@ != b@,
{
}

} // verus!
