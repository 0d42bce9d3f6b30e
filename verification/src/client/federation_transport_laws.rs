//! What holds of a control connection as a whole.

use vstd::prelude::*;

use crate::client::federation::{EndpointSpec, Failure, FailureKind, Negotiation, Update};
use crate::client::federation_transport::{
    self, Collection, Conclusion, Exchange, Greeting, Initialization, IoErrorKind,
    MetadataMessage, Next, Probe, Progress, Received, Request, Route, SetupAction, SetupIds,
    SetupPhase, SetupSignal, SystemConnection, MAX_INITIAL_RESPONSES, MAX_MESSAGE_CHARS,
};
use crate::machines::Machine;
use crate::protocol::{
    Capabilities, ClientAlertSnapshot, ClientMode, ClientPresenceSnapshot, Envelope,
    ExtensionCatalog, ResourceSnapshot,
};
use crate::ssh_bridge;
use crate::text;
use crate::text_laws;

verus! {

// ---------------------------------------------------------------------------
// Failures

/// Whatever text a failure comes from, its message is short and holds no control
/// character.
pub proof fn law_failure_messages_are_printable(
    failure: Failure,
    kind: FailureKind,
    message: Seq<char>,
)
    requires
        federation_transport::says(failure, kind, message),
    ensures
        failure.message@.len() <= MAX_MESSAGE_CHARS,
        forall|i: int|
            0 <= i < failure.message@.len() ==> !text::control(#[trigger] failure.message@[i]),
{
    let kept = text::printable(message);
    lemma_printable_only(message);
    assert forall|i: int| 0 <= i < failure.message@.len() implies !text::control(
        #[trigger] failure.message@[i],
    ) by {
        assert(failure.message@[i] == kept[i]);
    }
}

proof fn lemma_printable_only(message: Seq<char>)
    ensures
        forall|i: int|
            0 <= i < text::printable(message).len() ==> !text::control(
                #[trigger] text::printable(message)[i],
            ),
    decreases message.len(),
{
    reveal(Seq::filter);
    if message.len() > 0 {
        lemma_printable_only(message.drop_last());
    }
}

/// Diagnostics refine a transient failure only, and make it one that does not
/// retry only where they blame the host key, the credentials or the
/// installation.
pub proof fn law_only_explicit_diagnostics_stop_retries(
    original: Failure,
    diagnostic: Seq<char>,
    classified: Failure,
)
    requires
        federation_transport::classified_as(original, diagnostic, classified),
    ensures
        original.kind != FailureKind::Transient ==> classified == original,
        original.kind == FailureKind::Transient && classified.kind != FailureKind::Transient ==> {
            let folded = text::lowercase(diagnostic);
            federation_transport::blames_host_key(folded)
                || federation_transport::blames_credentials(folded)
                || federation_transport::blames_installation(folded)
        },
        classified.kind != FailureKind::Compatibility || original.kind
            == FailureKind::Compatibility,
{
}

/// A line blames the installation exactly when it says that `fut` cannot be found
/// or run, and speaks of neither a connection nor a socket; that the bridge is not
/// known; or that a library is missing.
pub proof fn law_a_line_blames_the_installation_in_its_words(line: Seq<char>)
    ensures
        federation_transport::line_blames_installation(line) <==> {
            ||| text::mentions(line, "fut"@) && !text::mentions(line, "connect"@)
                && !text::mentions(line, ".sock"@) && (text::mentions(line, "not found"@)
                || text::mentions(line, "no such file or directory"@) || text::mentions(
                line,
                "permission denied"@,
            ) || text::mentions(line, "cannot execute"@) || text::mentions(
                line,
                "exec format error"@,
            ))
            ||| text::mentions(line, "__stdio-bridge"@) && (text::mentions(line, "unrecognized"@)
                || text::mentions(line, "unknown"@) || text::mentions(line, "unexpected"@)
                || text::mentions(line, "invalid subcommand"@))
            ||| text::mentions(line, "error while loading shared libraries"@)
            ||| text::mentions(line, "dyld: library not loaded"@)
        },
{
    if text::mentions(line, "command not found"@) {
        reveal_strlit("command not found");
        reveal_strlit("not found");
        let i = choose|i: int| #[trigger] text::occurs_at(line, "command not found"@, i);
        let at = i + 8;
        assert(line.subrange(at, at + 9) =~= line.subrange(i, i + 17).subrange(8, 17));
        assert("command not found"@.subrange(8, 17) =~= "not found"@);
        assert(text::occurs_at(line, "not found"@, at));
    }
}

/// A diagnostic of whole lines that holds a line which blames the installation, with
/// any lines before it and anything after it, makes a lost connection a matter of
/// installation, unless it also blames the host key or the credentials. The line
/// may end in a carriage return and a line feed, in a line feed alone, or with the
/// diagnostic.
pub proof fn law_any_line_can_blame_the_installation(
    before: Seq<char>,
    line: Seq<char>,
    behind: Seq<char>,
    original: Failure,
    diagnostic: Seq<char>,
    classified: Failure,
)
    requires
        original.kind == FailureKind::Transient,
        federation_transport::classified_as(original, diagnostic, classified),
        before.len() == 0 || before.last() == '\n',
        forall|i: int| 0 <= i < line.len() ==> line[i] != '\n',
        line.len() == 0 || line.last() != '\r',
        federation_transport::line_blames_installation(line),
        text::lowercase(diagnostic) == before + line || text::lowercase(diagnostic) == before + line
            + seq!['\n'] + behind || text::lowercase(diagnostic) == before + line + seq![
            '\r',
            '\n',
        ] + behind,
        !federation_transport::blames_host_key(text::lowercase(diagnostic)),
        !federation_transport::blames_credentials(text::lowercase(diagnostic)),
    ensures
        classified.kind == FailureKind::Installation,
{
    let folded = text::lowercase(diagnostic);
    let lines = text::lines_of(folded);
    lemma_blaming_line_is_visible(line);
    let at = text::lines_of(before).len() as int;
    text_laws::law_a_line_ends_at_its_line_feed(line, behind);
    if folded == before + line {
        text_laws::law_lines_add_up(before, line);
        assert(lines[at] == line);
    } else if folded == before + line + seq!['\n'] + behind {
        assert(folded =~= before + (line + seq!['\n'] + behind));
        text_laws::law_lines_add_up(before, line + seq!['\n'] + behind);
        assert(lines[at] == line);
    } else {
        assert(folded =~= before + (line + seq!['\r', '\n'] + behind));
        text_laws::law_lines_add_up(before, line + seq!['\r', '\n'] + behind);
        assert(lines[at] == line);
    }
    assert(federation_transport::line_blames_installation(lines[at]));
    let k = lemma_visible_in(before, line, folded);
    text_laws::law_trimming_takes_white_space_away(diagnostic);
    text_laws::law_folding_changes_capitals_alone(diagnostic);
    assert(!text::white_space(diagnostic[k]));
}

/// A line that blames the installation shows a character that is no white space and
/// no capital.
proof fn lemma_blaming_line_is_visible(line: Seq<char>)
    requires
        federation_transport::line_blames_installation(line),
    ensures
        exists|i: int| 0 <= i < line.len() && 'a' <= #[trigger] line[i] <= 'z',
{
    reveal_strlit("fut");
    reveal_strlit("__stdio-bridge");
    reveal_strlit("error while loading shared libraries");
    reveal_strlit("dyld: library not loaded");
    if text::mentions(line, "fut"@) {
        let i = choose|i: int| #[trigger] text::occurs_at(line, "fut"@, i);
        assert(line.subrange(i, i + 3)[0] == line[i]);
        assert('a' <= line[i] <= 'z');
    } else if text::mentions(line, "__stdio-bridge"@) {
        let i = choose|i: int| #[trigger] text::occurs_at(line, "__stdio-bridge"@, i);
        assert(line.subrange(i, i + 14)[2] == line[i + 2]);
        assert('a' <= line[i + 2] <= 'z');
    } else if text::mentions(line, "error while loading shared libraries"@) {
        let i = choose|i: int| #[trigger]
            text::occurs_at(line, "error while loading shared libraries"@, i);
        assert(line.subrange(i, i + 36)[0] == line[i]);
        assert('a' <= line[i] <= 'z');
    } else {
        let i = choose|i: int| #[trigger] text::occurs_at(line, "dyld: library not loaded"@, i);
        assert(line.subrange(i, i + 24)[0] == line[i]);
        assert('a' <= line[i] <= 'z');
    }
}

proof fn lemma_visible_in(before: Seq<char>, line: Seq<char>, whole: Seq<char>) -> (k: int)
    requires
        exists|i: int| 0 <= i < line.len() && 'a' <= #[trigger] line[i] <= 'z',
        whole.len() >= before.len() + line.len(),
        forall|i: int| 0 <= i < line.len() ==> whole[before.len() + i] == #[trigger] line[i],
    ensures
        0 <= k < whole.len(),
        'a' <= whole[k] <= 'z',
{
    let i = choose|i: int| 0 <= i < line.len() && 'a' <= #[trigger] line[i] <= 'z';
    before.len() + i
}

/// Putting further lines before or after a diagnostic of whole lines never makes a
/// failure that needs attention a transient one.
pub proof fn law_more_lines_never_excuse_a_failure(
    first: Seq<char>,
    second: Seq<char>,
    third: Seq<char>,
)
    requires
        first.len() == 0 || first.last() == '\n',
        second.len() == 0 || second.last() == '\n',
        federation_transport::diagnosed_kind(second) != FailureKind::Transient,
    ensures
        federation_transport::diagnosed_kind(first + second + third) != FailureKind::Transient,
        federation_transport::diagnosed_kind(second) == FailureKind::HostKey
            ==> federation_transport::diagnosed_kind(first + second + third)
            == FailureKind::HostKey,
{
    let whole = first + second + third;
    let (x, y, z) = (text::lowercase(first), text::lowercase(second), text::lowercase(third));
    assert(text::lowercase(whole) =~= x + y + z);
    if federation_transport::blames_host_key(y) {
        lemma_more_host_key(x, y, z);
    } else if federation_transport::blames_credentials(y) {
        lemma_more_credentials(x, y, z);
    } else {
        text_laws::law_folding_changes_capitals_alone(first);
        text_laws::law_folding_changes_capitals_alone(second);
        if first.len() > 0 {
            assert(x[first.len() - 1] == '\n');
        }
        if second.len() > 0 {
            assert(y[second.len() - 1] == '\n');
        }
        let i = choose|i: int|
            0 <= i < text::lines_of(y).len() && federation_transport::line_blames_installation(
                #[trigger] text::lines_of(y)[i],
            );
        text_laws::law_lines_add_up(y, z);
        text_laws::law_lines_add_up(x, y + z);
        assert(x + y + z =~= x + (y + z));
        let at = text::lines_of(x).len() + i;
        assert(text::lines_of(x + y + z)[at] == text::lines_of(y)[i]);
    }
}

proof fn lemma_more_host_key(x: Seq<char>, y: Seq<char>, z: Seq<char>)
    requires
        federation_transport::blames_host_key(y),
    ensures
        federation_transport::blames_host_key(x + y + z),
{
    if text::mentions(y, "host key verification failed"@) {
        text_laws::law_a_longer_text_mentions_no_less(x, y, z, "host key verification failed"@);
    } else if text::mentions(y, "remote host identification has changed"@) {
        text_laws::law_a_longer_text_mentions_no_less(
            x,
            y,
            z,
            "remote host identification has changed"@,
        );
    } else if text::mentions(y, "host key has changed"@) {
        text_laws::law_a_longer_text_mentions_no_less(x, y, z, "host key has changed"@);
    } else if text::mentions(y, "no matching host key type found"@) {
        text_laws::law_a_longer_text_mentions_no_less(x, y, z, "no matching host key type found"@);
    } else {
        text_laws::law_a_longer_text_mentions_no_less(x, y, z, "requested strict checking"@);
    }
}

proof fn lemma_more_credentials(x: Seq<char>, y: Seq<char>, z: Seq<char>)
    requires
        federation_transport::blames_credentials(y),
    ensures
        federation_transport::blames_credentials(x + y + z),
{
    if text::mentions(y, "permission denied ("@) {
        text_laws::law_a_longer_text_mentions_no_less(x, y, z, "permission denied ("@);
    } else if text::mentions(y, "authentication failed"@) {
        text_laws::law_a_longer_text_mentions_no_less(x, y, z, "authentication failed"@);
    } else if text::mentions(y, "too many authentication failures"@) {
        text_laws::law_a_longer_text_mentions_no_less(x, y, z, "too many authentication failures"@);
    } else if text::mentions(y, "no supported authentication methods"@) {
        text_laws::law_a_longer_text_mentions_no_less(
            x,
            y,
            z,
            "no supported authentication methods"@,
        );
    } else if text::mentions(y, "sign_and_send_pubkey: signing failed"@) {
        text_laws::law_a_longer_text_mentions_no_less(
            x,
            y,
            z,
            "sign_and_send_pubkey: signing failed"@,
        );
    } else if text::mentions(y, "load key "@) {
        text_laws::law_a_longer_text_mentions_no_less(x, y, z, "load key "@);
    } else {
        text_laws::law_a_longer_text_mentions_no_less(x, y, z, "unprotected private key file"@);
    }
}

/// A visible diagnostic that blames the host key anywhere makes a lost connection a
/// matter of the host key, whatever else it says; one that blames the credentials
/// makes it a matter of authentication. The message keeps what was known and adds
/// the diagnostic, without the white space around it.
pub proof fn law_host_keys_come_before_credentials(
    original: Failure,
    diagnostic: Seq<char>,
    classified: Failure,
)
    requires
        original.kind == FailureKind::Transient,
        exists|i: int| 0 <= i < diagnostic.len() && !text::white_space(#[trigger] diagnostic[i]),
        federation_transport::classified_as(original, diagnostic, classified),
    ensures
        ({
            let folded = text::lowercase(diagnostic);
            let host = text::mentions(folded, "host key verification failed"@) || text::mentions(
                folded,
                "remote host identification has changed"@,
            ) || text::mentions(folded, "host key has changed"@) || text::mentions(
                folded,
                "no matching host key type found"@,
            ) || text::mentions(folded, "requested strict checking"@);
            let credentials = text::mentions(folded, "permission denied ("@) || text::mentions(
                folded,
                "authentication failed"@,
            ) || text::mentions(folded, "too many authentication failures"@) || text::mentions(
                folded,
                "no supported authentication methods"@,
            ) || text::mentions(folded, "sign_and_send_pubkey: signing failed"@) || text::mentions(
                folded,
                "load key "@,
            ) || text::mentions(folded, "unprotected private key file"@);
            &&& classified.kind == FailureKind::HostKey <==> host
            &&& classified.kind == FailureKind::Authentication <==> !host && credentials
        }),
        exists|from: int, to: int|
            0 <= from < to <= diagnostic.len() && !text::white_space(diagnostic[from])
                && !text::white_space(diagnostic[to - 1]) && federation_transport::says(
                classified,
                classified.kind,
                original.message@ + ": "@ + #[trigger] diagnostic.subrange(from, to),
            ) && forall|i: int|
                0 <= i < diagnostic.len() && !(from <= i < to) ==> text::white_space(
                    #[trigger] diagnostic[i],
                ),
{
    text_laws::law_trimming_takes_white_space_away(diagnostic);
    let kept = text::trimmed(diagnostic);
    let (from, to): (int, int) = choose|from: int, to: int|
        0 <= from <= to <= diagnostic.len() && kept == #[trigger] diagnostic.subrange(from, to)
            && forall|i: int|
            0 <= i < diagnostic.len() && !(from <= i < to) ==> text::white_space(
                #[trigger] diagnostic[i],
            );
    assert(kept[0] == diagnostic[from]);
    assert(kept.last() == diagnostic[to - 1]);
    assert(federation_transport::says(
        classified,
        classified.kind,
        original.message@ + ": "@ + diagnostic.subrange(from, to),
    ));
}

/// A failure keeps of its message what is printable, up to 1024 characters, so that
/// a short printable message is kept as it is.
pub proof fn law_a_printable_message_is_kept(
    failure: Failure,
    kind: FailureKind,
    message: Seq<char>,
)
    requires
        federation_transport::says(failure, kind, message),
    ensures
        failure.kind == kind,
        text::printable(message).len() <= 1024 ==> failure.message@ == text::printable(message),
        text::printable(message).len() > 1024 ==> failure.message@ == text::printable(
            message,
        ).take(1024),
        !text::holds_control(message) && message.len() <= 1024 ==> failure.message@ == message,
{
    text_laws::law_only_controls_are_left_out(message, message, ' ');
}

// ---------------------------------------------------------------------------
// Messages

/// Which messages are in place on a control connection, and what each brings:
/// snapshots of resources and presence always, alerts, catalogs and pongs exactly
/// where they were granted, and nothing else ever.
pub proof fn law_each_message_brings_its_own_snapshots(
    capabilities: Option<Capabilities>,
    snapshot: ResourceSnapshot,
    presence: ClientPresenceSnapshot,
    alerts: ClientAlertSnapshot,
    catalog: ExtensionCatalog,
    daemon_pid: u32,
    other: MetadataMessage,
)
    ensures
        federation_transport::brings(
            capabilities,
            MetadataMessage::Resources { snapshot, presence },
        ) == Some(seq![Update::Resources(snapshot), Update::Presence(presence)]),
        federation_transport::brings(capabilities, MetadataMessage::ResourcesChanged { snapshot })
            == Some(seq![Update::Resources(snapshot)]),
        federation_transport::brings(capabilities, MetadataMessage::PresenceChanged { presence })
            == Some(seq![Update::Presence(presence)]),
        federation_transport::brings(
            capabilities,
            MetadataMessage::AlertsChanged { snapshot: alerts },
        ) == (if capabilities matches Some(granted) && !granted.control_alerts {
            None
        } else {
            Some(seq![Update::Alerts(alerts)])
        }),
        federation_transport::brings(capabilities, MetadataMessage::ExtensionCatalog { catalog })
            == (if capabilities matches Some(granted) && !granted.extension_catalog {
            None
        } else {
            Some(seq![Update::Catalog(catalog)])
        }),
        federation_transport::brings(
            capabilities,
            MetadataMessage::ExtensionCatalogChanged { catalog },
        ) == (if capabilities matches Some(granted) && !granted.extension_catalog {
            None
        } else {
            Some(seq![Update::Catalog(catalog)])
        }),
        federation_transport::brings(capabilities, MetadataMessage::Pong { daemon_pid }) == (
        if capabilities matches Some(granted) && !granted.health {
            None
        } else {
            Some(Seq::<Update>::empty())
        }),
        other is Welcome || other is RemoteWelcome || other is EndpointError
            || other is IncompatibleProtocol || other is Error || other is Detached
            || other is Unexpected ==> federation_transport::brings(capabilities, other) is None,
{
}

/// What a message out of place means: an orderly end is transient, and everything
/// else a matter of compatibility.
pub proof fn law_only_an_orderly_end_is_retried(message: MetadataMessage)
    ensures
        federation_transport::refusal(message).0 == (if message is Detached {
            FailureKind::Transient
        } else {
            FailureKind::Compatibility
        }),
{
}

/// A probe is answered exactly by a reply of the kind that was asked for under its
/// identity, and a connection without health asks for resources instead.
pub proof fn law_a_probe_is_answered_by_its_reply(
    connection: SystemConnection,
    id: u128,
    request: Request,
    after: SystemConnection,
    reply: Envelope<MetadataMessage>,
)
    requires
        connection.probing(id, request, after),
    ensures
        ({
            let pings = !(connection.capabilities matches Some(granted) && !granted.health);
            &&& request == (if pings {
                Request::Ping
            } else {
                Request::ListResources
            })
            &&& after.answered(reply) <==> reply.request_id == Some(id) && (if pings {
                reply.message is Pong
            } else {
                reply.message is Resources
            })
        }),
        after.pending@ == connection.pending@.filter(|update: Update| !(update is Healthy)),
{
}

/// A handshake is settled exactly by the answer that it asked for: locally a
/// welcome of the client's own version, without a selection and with a version
/// text that can be shown, and remotely a welcome that the offered hello accepts.
pub proof fn law_a_handshake_settles_on_its_own_welcome(
    connection: SystemConnection,
    request_id: Option<u128>,
    reply: Envelope<MetadataMessage>,
)
    ensures
        ({
            let outcome = connection.greeting(request_id, reply);
            let own = reply.request_id == request_id;
            match reply.message {
                MetadataMessage::RemoteWelcome(welcome) => {
                    &&& outcome is Ok <==> own && connection.remote && welcome.verdict is Ok
                    &&& outcome matches Ok(greeting) ==> greeting.catalog
                        == welcome.extension_catalog && greeting.negotiation == (
                    Negotiation::Ssh {
                        protocol_generation: welcome.generation,
                        server_version: welcome.server_version,
                        capabilities: welcome.verdict->Ok_0,
                    })
                },
                MetadataMessage::Welcome {
                    version,
                    server_version,
                    selected,
                    extension_catalog,
                } => {
                    let bytes = vstd::utf8::encode_utf8(server_version@).len();
                    let clean = forall|i: int|
                        0 <= i < server_version@.len() ==> !text::control(
                            #[trigger] server_version@[i],
                        );
                    &&& outcome is Ok <==> own && !connection.remote && !selected && version
                        == connection.protocol_version && 1 <= bytes <= 128 && clean
                    &&& outcome matches Ok(greeting) ==> greeting.catalog == Some(
                        extension_catalog,
                    ) && greeting.negotiation == (Negotiation::Local { protocol_version: version })
                },
                _ => outcome is Err,
            }
        }),
{
}

/// A collection is complete as soon as its own answers have come, in either order,
/// and unrelated replies neither complete it nor take an answer back.
pub proof fn law_own_answers_complete_a_collection(
    collection: Collection,
    reply: Envelope<MetadataMessage>,
    updates: Seq<Update>,
)
    ensures
        ({
            let after = collection.after(reply, updates);
            let resources = reply.message is Resources && reply.request_id == Some(
                collection.resources_id,
            );
            let alerts = reply.message is AlertsChanged && collection.alerts_id is Some
                && reply.request_id == collection.alerts_id;
            &&& after.is_complete() <==> (collection.resources_ready || resources) && (
            collection.alerts_ready || alerts)
            &&& after.resources_ready <==> collection.resources_ready || resources
            &&& after.alerts_ready <==> collection.alerts_ready || alerts
        }),
{
}

// ---------------------------------------------------------------------------
// Probes

/// Once a probe is sent, only a reply with its identity and of the kind asked
/// for is taken as a health response, and none that was queued before remains.
pub proof fn law_health_needs_the_current_probe(
    connection: SystemConnection,
    id: u128,
    request: Request,
    after: SystemConnection,
    reply: Envelope<MetadataMessage>,
)
    requires
        connection.probing(id, request, after),
    ensures
        after.answered(reply) ==> reply.request_id == Some(id) && (if request == Request::Ping {
            reply.message is Pong
        } else {
            reply.message is Resources
        }),
        forall|i: int| 0 <= i < after.pending@.len() ==> !((#[trigger] after.pending@[i]) is Healthy),
{
    lemma_no_health(connection.pending@);
}

proof fn lemma_no_health(updates: Seq<Update>)
    ensures
        forall|i: int|
            0 <= i < federation_transport::without_health(updates).len() ==> !((
            #[trigger] federation_transport::without_health(updates)[i]) is Healthy),
    decreases updates.len(),
{
    reveal(Seq::filter);
    if updates.len() > 0 {
        lemma_no_health(updates.drop_last());
    }
}

/// A probe is answered at most once: the reply that answers it withdraws it, and
/// without a probe no reply is a health response.
pub proof fn law_a_probe_is_answered_once(
    connection: SystemConnection,
    reply: Envelope<MetadataMessage>,
)
    requires
        connection.probe is None,
    ensures
        !connection.answered(reply),
{
}

/// A probe by resources is answered by both snapshots and then the health
/// response, so a probe loses no metadata.
pub proof fn law_a_metadata_probe_keeps_both_snapshots(
    connection: SystemConnection,
    reply: Envelope<MetadataMessage>,
)
    requires
        connection.probe matches Some(Probe::Resources(_)),
        connection.answered(reply),
    ensures
        reply.message matches MetadataMessage::Resources { snapshot, presence }
            && federation_transport::brings(connection.capabilities, reply.message) == Some(
            seq![Update::Resources(snapshot), Update::Presence(presence)],
        ),
{
}

/// No reply brings a health response of itself.
pub proof fn law_no_message_brings_health(
    capabilities: Option<Capabilities>,
    message: MetadataMessage,
)
    ensures
        federation_transport::brings(capabilities, message) matches Some(updates) ==> forall|i: int|
            0 <= i < updates.len() ==> !((#[trigger] updates[i]) is Healthy),
{
}

// ---------------------------------------------------------------------------
// Initial metadata

/// The collection after these replies, all in place.
pub open spec fn replayed(
    begun: Collection,
    capabilities: Option<Capabilities>,
    replies: Seq<Envelope<MetadataMessage>>,
) -> Collection
    decreases replies.len(),
{
    if replies.len() == 0 {
        begun
    } else {
        replayed(begun, capabilities, replies.drop_last()).after(
            replies.last(),
            federation_transport::brings(capabilities, replies.last().message)->0,
        )
    }
}

/// Every reply is in place, and none before the last completes the collection.
pub open spec fn goes_on(
    begun: Collection,
    capabilities: Option<Capabilities>,
    replies: Seq<Envelope<MetadataMessage>>,
) -> bool
    decreases replies.len(),
{
    replies.len() == 0 || {
        let before = replayed(begun, capabilities, replies.drop_last());
        &&& goes_on(begun, capabilities, replies.drop_last())
        &&& !before.is_complete()
        &&& before.responses < MAX_INITIAL_RESPONSES
        &&& federation_transport::brings(capabilities, replies.last().message) is Some
    }
}

/// However much a peer sends, no more than the allowed number of replies is
/// waited for.
pub proof fn law_a_collection_is_bounded(
    begun: Collection,
    capabilities: Option<Capabilities>,
    replies: Seq<Envelope<MetadataMessage>>,
)
    requires
        begun.responses == 0,
        goes_on(begun, capabilities, replies),
    ensures
        replies.len() <= MAX_INITIAL_RESPONSES,
        replayed(begun, capabilities, replies).responses == replies.len(),
    decreases replies.len(),
{
    if replies.len() > 0 {
        law_a_collection_is_bounded(begun, capabilities, replies.drop_last());
    }
}

/// A collection is complete only once the answer to its own resource request has
/// come, and to its own alert request where it made one.
pub proof fn law_a_collection_needs_its_own_answers(
    begun: Collection,
    capabilities: Option<Capabilities>,
    replies: Seq<Envelope<MetadataMessage>>,
)
    requires
        !begun.resources_ready,
        begun.alerts_ready == (begun.alerts_id is None),
        goes_on(begun, capabilities, replies),
    ensures
        replayed(begun, capabilities, replies).resources_id == begun.resources_id,
        replayed(begun, capabilities, replies).alerts_id == begun.alerts_id,
        replayed(begun, capabilities, replies).resources_ready ==> exists|i: int|
            0 <= i < replies.len() && (#[trigger] replies[i]).request_id == Some(begun.resources_id)
                && replies[i].message is Resources,
        replayed(begun, capabilities, replies).alerts_ready && begun.alerts_id is Some
            ==> exists|i: int|
            0 <= i < replies.len() && (#[trigger] replies[i]).request_id == begun.alerts_id
                && replies[i].message is AlertsChanged,
    decreases replies.len(),
{
    if replies.len() > 0 {
        let earlier = replies.drop_last();
        law_a_collection_needs_its_own_answers(begun, capabilities, earlier);
        let before = replayed(begun, capabilities, earlier);
        lemma_with_keeps_identity(
            before,
            federation_transport::brings(capabilities, replies.last().message)->0,
        );
        if before.resources_ready {
            let i = choose|i: int|
                0 <= i < earlier.len() && (#[trigger] earlier[i]).request_id == Some(
                    begun.resources_id,
                ) && earlier[i].message is Resources;
            assert(replies[i] == earlier[i]);
        } else if replayed(begun, capabilities, replies).resources_ready {
            assert(replies[replies.len() - 1].message is Resources);
        }
        if begun.alerts_id is Some {
            if before.alerts_ready {
                let i = choose|i: int|
                    0 <= i < earlier.len() && (#[trigger] earlier[i]).request_id == begun.alerts_id
                        && earlier[i].message is AlertsChanged;
                assert(replies[i] == earlier[i]);
            } else if replayed(begun, capabilities, replies).alerts_ready {
                assert(replies[replies.len() - 1].message is AlertsChanged);
            }
        }
    }
}

proof fn lemma_with_keeps_identity(collection: Collection, updates: Seq<Update>)
    ensures
        collection.with(updates).resources_id == collection.resources_id,
        collection.with(updates).alerts_id == collection.alerts_id,
        collection.with(updates).resources_ready == collection.resources_ready,
        collection.with(updates).alerts_ready == collection.alerts_ready,
        collection.with(updates).responses == collection.responses,
    decreases updates.len(),
{
    if updates.len() > 0 {
        lemma_with_keeps_identity(collection, updates.drop_last());
    }
}

/// The latest snapshot of each stream counts, also an unasked one that arrives
/// while answers are awaited; streams that a reply does not bring keep theirs.
pub proof fn law_the_latest_snapshot_counts(
    collection: Collection,
    capabilities: Option<Capabilities>,
    reply: Envelope<MetadataMessage>,
)
    requires
        federation_transport::brings(capabilities, reply.message) is Some,
    ensures
        ({
            let after = collection.after(
                reply,
                federation_transport::brings(capabilities, reply.message)->0,
            );
            &&& after.resources == (match reply.message {
                MetadataMessage::Resources { snapshot, .. } => Some(snapshot),
                MetadataMessage::ResourcesChanged { snapshot } => Some(snapshot),
                _ => collection.resources,
            })
            &&& after.presence == (match reply.message {
                MetadataMessage::Resources { presence, .. } => Some(presence),
                MetadataMessage::PresenceChanged { presence } => Some(presence),
                _ => collection.presence,
            })
            &&& after.alerts == (match reply.message {
                MetadataMessage::AlertsChanged { snapshot } => Some(snapshot),
                _ => collection.alerts,
            })
            &&& after.catalog == (match reply.message {
                MetadataMessage::ExtensionCatalog { catalog } => Some(catalog),
                MetadataMessage::ExtensionCatalogChanged { catalog } => Some(catalog),
                _ => collection.catalog,
            })
        }),
{
    reveal_with_fuel(Collection::with, 3);
}

// ---------------------------------------------------------------------------
// Failures of the transport

/// Of all I/O errors only invalid data is a matter of compatibility; the others are
/// transient. A missing SSH executable alone is a matter of installation.
pub proof fn law_only_invalid_data_is_incompatible(
    kind: IoErrorKind,
    io: Option<IoErrorKind>,
    message: Seq<char>,
    failure: Failure,
)
    ensures
        federation_transport::transport_kind(kind) == FailureKind::Compatibility <==> kind
            is InvalidData,
        federation_transport::transport_kind(kind) == FailureKind::Transient <==> !(kind
            is InvalidData),
        federation_transport::bridge_fails(io, message, failure) ==> {
            &&& failure.kind == FailureKind::Installation <==> (io matches Some(kind) && kind
                is NotFound)
            &&& failure.kind == FailureKind::Transient <==> !(io matches Some(kind) && kind
                is NotFound)
            &&& failure.kind == FailureKind::Transient ==> federation_transport::says(
                failure,
                FailureKind::Transient,
                message,
            )
        },
{
}

/// The local machine is reached by its socket, and a saved one over SSH by exactly
/// its target; a target that is no destination is never tried, and is a matter of
/// compatibility.
pub proof fn law_a_route_leads_to_the_saved_target(
    machine: Machine,
    local: Result<Route, Failure>,
    saved: Result<Route, Failure>,
)
    requires
        federation_transport::leads(EndpointSpec::Local, local),
        federation_transport::leads(EndpointSpec::Ssh(machine), saved),
    ensures
        local matches Ok(Route::LocalSocket),
        saved is Ok <==> ssh_bridge::destination_fault(machine.target@) is None,
        saved matches Ok(route) ==> (route matches Route::SshBridge(target) && target@
            == machine.target@),
        saved matches Err(failure) ==> failure.kind == FailureKind::Compatibility,
{
}

/// An attempt connects exactly when its exchange is complete, with what that
/// brought. Any other attempt is remembered with its failure, running out of time
/// being a transient one; a transient failure over SSH is diagnosed, and any other
/// is the result.
pub proof fn law_an_attempt_connects_or_is_remembered(
    connection: SystemConnection,
    exchange: Exchange,
    after: SystemConnection,
    r: Conclusion,
)
    requires
        connection.concluded(exchange, after, r),
    ensures
        r is Connected <==> exchange is Complete,
        r matches Conclusion::Connected(initial) ==> exchange == Exchange::Complete(initial)
            && after == connection,
        r matches Conclusion::Failed(next) ==> (after.terminal_failure matches Some(error) && {
            &&& exchange matches Exchange::Failed(failure) ==> error == failure
            &&& exchange is TimedOut ==> error.kind == FailureKind::Transient
            &&& next is Diagnose <==> connection.remote && error.kind == FailureKind::Transient
            &&& !(next is Diagnose) ==> next == Next::Fail(error)
        }),
{
}

// ---------------------------------------------------------------------------
// Replies in turn

/// Nothing that a reply in place brings is lost or overtaken: what is yielded,
/// followed by what stays queued, is what was queued before, then what the reply
/// brings, and last a health response exactly where it answers the probe. A reply
/// out of place fails for good and leaves the queue alone.
pub proof fn law_updates_come_out_in_order(
    connection: SystemConnection,
    reply: Envelope<MetadataMessage>,
    after: SystemConnection,
    r: Next,
)
    requires
        connection.receives(Received::Reply(reply), after, r),
    ensures
        federation_transport::brings(connection.capabilities, reply.message) matches Some(updates)
            ==> {
            let health = if connection.answered(reply) {
                seq![Update::Healthy]
            } else {
                seq![]
            };
            let all = connection.pending@ + updates + health;
            &&& r is Receive <==> all.len() == 0
            &&& r matches Next::Yield(update) ==> seq![update] + after.pending@ == all
            &&& r is Yield || r is Receive
            &&& r is Receive ==> after.pending@.len() == 0
            &&& after.terminal_failure == connection.terminal_failure
            &&& connection.answered(reply) ==> after.probe is None
            &&& !connection.answered(reply) ==> after.probe == connection.probe
        },
        federation_transport::brings(connection.capabilities, reply.message) is None ==> (
        after.terminal_failure matches Some(error) && error.kind == (if reply.message is Detached {
            FailureKind::Transient
        } else {
            FailureKind::Compatibility
        }) && after.pending@ == connection.pending@ && (r == Next::Fail(error) || (r is Diagnose
            && connection.remote && reply.message is Detached))),
{
    if federation_transport::brings(connection.capabilities, reply.message) is Some {
        let updates = federation_transport::brings(connection.capabilities, reply.message)->0;
        let health = if connection.answered(reply) {
            seq![Update::Healthy]
        } else {
            seq![]
        };
        let all = connection.pending@ + updates + health;
        if all.len() > 0 {
            assert(seq![all[0]] + all.skip(1) =~= all);
        }
    }
}

/// A stream that ends over SSH is a transient failure to be diagnosed; locally it
/// simply ends. A failure of the stream is remembered as it is.
pub proof fn law_a_lost_stream_is_remembered(
    connection: SystemConnection,
    received: Received,
    after: SystemConnection,
    r: Next,
)
    requires
        connection.receives(received, after, r),
    ensures
        received is EndOfStream && !connection.remote ==> r is End && after.terminal_failure
            == connection.terminal_failure,
        received is EndOfStream && connection.remote ==> r is Diagnose && (
        after.terminal_failure matches Some(error) && error.kind == FailureKind::Transient),
        received matches Received::Failed(error) ==> {
            &&& after.terminal_failure == Some(error)
            &&& r is Diagnose <==> connection.remote && error.kind == FailureKind::Transient
            &&& !(r is Diagnose) ==> r == Next::Fail(error)
        },
        !(received is Reply) ==> after.pending@ == connection.pending@ && after.probe
            == connection.probe,
{
}

/// A remembered failure comes before everything that is queued, and comes again each
/// time; without one the oldest update comes next, and a reply is waited for only
/// where none is queued.
pub proof fn law_a_remembered_failure_comes_first(
    connection: SystemConnection,
    after: SystemConnection,
    r: Next,
)
    requires
        connection.continues(after, r),
    ensures
        after.terminal_failure == connection.terminal_failure,
        after.probe == connection.probe,
        connection.terminal_failure matches Some(error) ==> {
            &&& after.pending@ == connection.pending@
            &&& r is Diagnose <==> connection.remote && error.kind == FailureKind::Transient
            &&& !(r is Diagnose) ==> r == Next::Fail(error)
        },
        connection.terminal_failure is None ==> {
            &&& r is Receive <==> connection.pending@.len() == 0
            &&& r matches Next::Yield(update) ==> seq![update] + after.pending@
                == connection.pending@
            &&& r is Receive || r is Yield
            &&& r is Receive ==> after.pending@.len() == 0
        },
{
    if connection.terminal_failure is None && connection.pending@.len() > 0 {
        assert(seq![connection.pending@[0]] + connection.pending@.skip(1) =~= connection.pending@);
    }
}

// ---------------------------------------------------------------------------
// The initial exchange

/// Both hellos ask for control alone. A remote one is correlated; a local one is
/// not, and names the one version that the client speaks.
pub proof fn law_the_exchange_begins_with_one_hello(
    connection: SystemConnection,
    client_id: u128,
    client_version: String,
    ids: SetupIds,
)
    ensures
        ({
            let (begun, action) = Initialization::begun(connection, client_id, client_version, ids);
            &&& begun.phase is Greeting
            &&& begun.ids == ids
            &&& begun.client_id == client_id
            &&& begun.request_id is Some <==> connection.remote
            &&& action == (if connection.remote {
                SetupAction::Send {
                    request_id: Some(ids.hello),
                    request: Request::RemoteHello { client_version, mode: ClientMode::Control },
                }
            } else {
                SetupAction::Send {
                    request_id: None,
                    request: Request::Hello {
                        version: connection.protocol_version,
                        client_version,
                        mode: ClientMode::Control,
                    },
                }
            })
            &&& action matches SetupAction::Send { request_id, .. } ==> request_id
                == begun.request_id
        }),
{
}

/// The exchange waits for the welcome after the hello, subscribes to resources once
/// it is settled and to alerts exactly where they were granted, under this client's
/// identity, and then waits for both. Whatever cannot be sent ends it.
pub proof fn law_the_exchange_asks_in_order(
    setup: Initialization,
    connection: SystemConnection,
    signal: SetupSignal,
    after: Initialization,
    end: SystemConnection,
    action: SetupAction,
)
    requires
        setup.goes(connection, signal, after, end, action),
    ensures
        setup.phase is Greeting && signal is Sent ==> action is Receive && after.phase
            is AwaitingWelcome,
        setup.phase is AwaitingWelcome && signal is Received && !(action is Failed) ==> {
            &&& action == (SetupAction::Send {
                request_id: Some(setup.ids.resources),
                request: Request::WatchResources,
            })
            &&& (after.phase matches SetupPhase::Subscribing(collection) && {
                &&& collection.resources_id == setup.ids.resources
                &&& collection.alerts_id == (if end.capabilities matches Some(granted)
                    && !granted.control_alerts {
                    None
                } else {
                    Some(setup.ids.alerts)
                })
                &&& collection.responses == 0
                &&& !collection.resources_ready
                &&& collection.alerts_ready == (collection.alerts_id is None)
                &&& collection.resources is None
                &&& collection.presence is None
                &&& collection.alerts is None
            })
        },
        setup.phase matches SetupPhase::Subscribing(collection) ==> (signal is Sent ==> match
        collection.alerts_id {
            Some(id) => action == (SetupAction::Send {
                request_id: Some(id),
                request: Request::WatchAlerts { client_id: setup.client_id },
            }) && after.phase == SetupPhase::SubscribingAlerts(collection),
            None => action is Receive && after.phase == SetupPhase::Collecting(collection),
        }),
        setup.phase matches SetupPhase::SubscribingAlerts(collection) ==> (signal is Sent ==> action
            is Receive && after.phase == SetupPhase::Collecting(collection)),
        signal matches SetupSignal::SendFailed(error) ==> action == SetupAction::Failed(error)
            && after.phase is Finished,
        action is Complete || action is Failed ==> after.phase is Finished,
        after.ids == setup.ids,
        after.client_id == setup.client_id,
        after.request_id == setup.request_id,
{
}

/// A collection waits for more exactly until it is complete, and for no more than 64
/// replies. What it is complete with is what the streams held last, under what was
/// negotiated.
pub proof fn law_a_collection_ends_complete_or_after_its_limit(
    collection: Collection,
    connection: SystemConnection,
    reply: Envelope<MetadataMessage>,
    end: SystemConnection,
    progress: Progress,
)
    requires
        collection.collected(connection, Received::Reply(reply), end, progress),
    ensures
        ({
            let updates = federation_transport::brings(connection.capabilities, reply.message);
            let next = collection.after(reply, updates->0);
            &&& updates is None ==> progress is Failed
            &&& updates is Some ==> {
                &&& progress is Complete <==> next.resources_ready && next.alerts_ready
                &&& progress is More <==> !(next.resources_ready && next.alerts_ready)
                    && collection.responses + 1 < 64
                &&& progress matches Progress::More(more) ==> more == next && more.responses
                    == collection.responses + 1
                &&& progress matches Progress::Complete(initial) ==> {
                    &&& initial.negotiation == collection.negotiation
                    &&& Some(initial.resources) == next.resources
                    &&& Some(initial.presence) == next.presence
                    &&& initial.alerts == next.alerts
                    &&& initial.catalog == next.catalog
                }
                &&& progress matches Progress::Failed(error) ==> error.kind
                    == FailureKind::Transient
            }
        }),
{
}

/// A settled handshake sets what a remote endpoint granted, and leaves a local one
/// with everything; any reply ends the strict reading. Whatever else comes fails
/// the handshake: an end of the stream is transient, and a reply to another request
/// is not acceptable.
pub proof fn law_a_welcome_sets_what_was_granted(
    connection: SystemConnection,
    request_id: Option<u128>,
    received: Received,
    after: SystemConnection,
    outcome: Result<Greeting, Failure>,
)
    requires
        connection.welcomed(request_id, received, after, outcome),
    ensures
        outcome is Ok <==> (received matches Received::Reply(reply) && connection.greeting(
            request_id,
            reply,
        ) is Ok),
        outcome matches Ok(greeting) ==> (received matches Received::Reply(reply)
            && connection.greeting(request_id, reply) == Ok::<Greeting, (FailureKind, Seq<char>)>(
            greeting,
        ) && after.capabilities == (match greeting.negotiation {
            Negotiation::Ssh { capabilities, .. } => Some(capabilities),
            Negotiation::Local { .. } => connection.capabilities,
        })),
        received is Reply ==> !after.strict_remote_handshake,
        received matches Received::Failed(error) ==> outcome == Err::<Greeting, Failure>(error)
            && after == connection,
        received is EndOfStream ==> (outcome matches Err(error) && error.kind
            == FailureKind::Transient),
        received matches Received::Reply(reply) ==> (reply.request_id != request_id ==> (
        outcome matches Err(error) && error.kind == FailureKind::Compatibility
            && after.capabilities == connection.capabilities)),
        outcome is Err ==> after.capabilities == connection.capabilities,
{
}

/// A diagnosis is remembered in place of the failure that it explains, so that the
/// next update repeats it; a failure that is not transient is not diagnosed away.
pub proof fn law_a_diagnosis_is_remembered(
    connection: SystemConnection,
    diagnostic: Seq<char>,
    after: SystemConnection,
    r: Option<Failure>,
    later: SystemConnection,
    next: Next,
)
    requires
        connection.diagnoses(diagnostic, after, r),
        after.continues(later, next),
    ensures
        r == after.terminal_failure,
        r is Some <==> connection.terminal_failure is Some,
        r matches Some(failure) ==> (failure.kind != FailureKind::Transient ==> next == Next::Fail(
            failure,
        )),
        connection.terminal_failure matches Some(error) ==> (error.kind != FailureKind::Transient
            ==> r == Some(error)),
        after.pending@ == connection.pending@,
{
}

} // verus!
