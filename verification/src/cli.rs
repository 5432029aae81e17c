//! The decisions and the messages of the command-line program.

use vstd::prelude::*;

use crate::foundation;
use crate::imap;
use crate::imap::{FetchedMessage, MailboxState, MailboxSync};
use crate::rdf;
use crate::rdf::RdfOptions;
use crate::sync;
use crate::sync::SyncCursor;
use crate::text;

verus! {

// ---------------------------------------------------------------------------
// Arguments

/// The named graph: the one asked for, or else one for the user.
pub open spec fn chosen_graph(graph: Option<Seq<char>>, username: Seq<char>) -> Seq<char> {
    match graph {
        Some(g) => g,
        None => "urn:email:"@ + username,
    }
}

/// The named graph: the one asked for, or else one for the user.
pub fn graph_or_default(graph: Option<String>, username: &str) -> (r: String)
    ensures
        r@ == chosen_graph(text::maybe_owned(graph), username@),
{
    match graph {
        Some(g) => g,
        None => {
            let mut g = "urn:email:".to_owned();
            g.append(username);
            g
        },
    }
}

/// The sentence for a missing secret. `quote` is the quoted form of the name of
/// the environment variable.
pub open spec fn missing_secret_sentence(quote: Seq<char>) -> Seq<char> {
    "authentication-secret environment variable "@ + quote + " is not set"@
}

/// The sentence for a missing secret.
pub fn missing_secret(variable: &str) -> (s: String)
    ensures
        s@ == missing_secret_sentence(foundation::quoted(variable@)),
{
    let quote = foundation::quote_debug(variable);
    missing_secret_quoting(quote.as_str())
}

/// The sentence for a missing secret, with the name of the variable in the
/// quoted form that is given.
pub fn missing_secret_quoting(quote: &str) -> (s: String)
    ensures
        s@ == missing_secret_sentence(quote@),
{
    let mut s = "authentication-secret environment variable ".to_owned();
    s.append(quote);
    s.append(" is not set");
    s
}

/// How `fetch` projects messages: as quads in the named graph.
pub fn fetch_options(
    data_iri: String,
    graph: Option<String>,
    username: &str,
    include_body: bool,
) -> (options: RdfOptions)
    ensures
        options.data_iri@ == data_iri@,
        text::maybe_owned(options.graph) == Some(
            chosen_graph(text::maybe_owned(graph), username@),
        ),
        options.include_body == include_body,
{
    RdfOptions { data_iri, graph: Some(graph_or_default(graph, username)), include_body }
}

/// How `sync` projects messages: as triples, which the update puts into the
/// named graph.
pub fn sync_options(data_iri: String, include_body: bool) -> (options: RdfOptions)
    ensures
        options.data_iri@ == data_iri@,
        options.graph is None,
        options.include_body == include_body,
{
    RdfOptions { data_iri, graph: None, include_body }
}

// ---------------------------------------------------------------------------
// Fetching

/// The output of `fetch`: the text of each message that was asked for, in the
/// order of the UIDs.
pub struct FetchOutput {
    uids: Vec<u32>,
    options: RdfOptions,
    progress: Progress,
}

struct Progress {
    fetched: usize,
    messages: Ghost<Seq<imap::MessageModel>>,
}

/// What was asked for, and the messages that have come so far.
#[verifier::ext_equal]
pub struct FetchOutputModel {
    pub uids: Seq<u32>,
    pub data_iri: Seq<char>,
    pub graph: Option<Seq<char>>,
    pub include_body: bool,
    pub messages: Seq<imap::MessageModel>,
}

impl View for FetchOutput {
    type V = FetchOutputModel;

    closed spec fn view(&self) -> FetchOutputModel {
        FetchOutputModel {
            uids: self.uids@,
            data_iri: self.options.data_iri@,
            graph: text::maybe_owned(self.options.graph),
            include_body: self.options.include_body,
            messages: self.progress.messages@,
        }
    }
}

/// The texts of messages, one after the other.
pub open spec fn message_texts(
    messages: Seq<imap::MessageModel>,
    data_iri: Seq<char>,
    include_body: bool,
    graph: Option<Seq<char>>,
) -> Seq<char>
    decreases messages.len(),
{
    if messages.len() == 0 {
        seq![]
    } else {
        message_texts(messages.drop_last(), data_iri, include_body, graph) + rdf::document(
            rdf::message_statements(messages.last(), data_iri, include_body),
            graph,
        )
    }
}

/// The whole text that was written so far.
pub open spec fn written(output: FetchOutputModel) -> Seq<char> {
    message_texts(output.messages, output.data_iri, output.include_body, output.graph)
}

/// Whether the messages so far are those with the first of the UIDs, in their
/// order.
pub open spec fn in_order(output: FetchOutputModel) -> bool {
    &&& output.messages.len() <= output.uids.len()
    &&& forall|i: int|
        0 <= i < output.messages.len() ==> (#[trigger] output.messages[i]).uid == output.uids[i]
}

/// The UID of the message to fetch next, if there is one left.
pub open spec fn awaited(output: FetchOutputModel) -> Option<u32> {
    if output.messages.len() < output.uids.len() {
        Some(output.uids[output.messages.len() as int])
    } else {
        None
    }
}

impl FetchOutput {
    #[verifier::type_invariant]
    spec fn is_counted(self) -> bool {
        self.progress.fetched == self.progress.messages@.len() && in_order(self@)
    }

    /// The output for the given UIDs, with nothing written.
    pub fn new(uids: Vec<u32>, options: RdfOptions) -> (output: Self)
        ensures
            output@ == (FetchOutputModel {
                uids: uids@,
                data_iri: options.data_iri@,
                graph: text::maybe_owned(options.graph),
                include_body: options.include_body,
                messages: seq![],
            }),
            written(output@).len() == 0,
    {
        FetchOutput { uids, options, progress: Progress { fetched: 0, messages: Ghost(Seq::empty()) } }
    }

    /// The UID of the message to fetch next, if there is one left.
    pub fn next_uid(&self) -> (uid: Option<u32>)
        ensures
            uid == awaited(self@),
            in_order(self@),
    {
        proof {
            use_type_invariant(self);
        }
        if self.progress.fetched < self.uids.len() {
            Some(self.uids[self.progress.fetched])
        } else {
            None
        }
    }

    /// Takes the message that is to be fetched next, and gives the text to write
    /// for it. For any other message there is none, and nothing changes.
    pub fn write(&mut self, message: &FetchedMessage) -> (text: Option<String>)
        ensures
            text is Some <==> awaited(old(self)@) == Some(message@.uid),
            text is None ==> final(self)@ == old(self)@,
            text matches Some(s) ==> {
                &&& s@ == rdf::document(
                    rdf::message_statements(
                        message@,
                        old(self)@.data_iri,
                        old(self)@.include_body,
                    ),
                    old(self)@.graph,
                )
                &&& final(self)@ == (FetchOutputModel {
                    messages: old(self)@.messages.push(message@),
                    ..old(self)@
                })
                &&& written(final(self)@) == written(old(self)@) + s@
            },
    {
        proof {
            use_type_invariant(&*self);
        }
        let fetched: usize = self.progress.fetched;
        if fetched >= self.uids.len() || self.uids[fetched] != message.uid {
            return None;
        }
        let s = rdf::message_to_nquads(message, &self.options);
        let ghost before = self@.messages;
        let ghost messages = before.push(message@);
        assert(messages.drop_last() =~= before);
        self.progress = Progress { fetched: fetched + 1, messages: Ghost(messages) };
        Some(s)
    }

    /// The last line that `fetch` prints: how many messages were written.
    pub fn summary(&self, output: &str) -> (s: String)
        ensures
            s@ == fetch_sentence(self@.messages.len(), output@),
    {
        proof {
            use_type_invariant(self);
        }
        fetch_summary(self.progress.fetched, output)
    }
}

/// Once no message is left to fetch, the messages of the output are those with
/// the given UIDs, all of them and in their order.
pub proof fn complete_output_is_in_order(output: FetchOutputModel)
    requires
        in_order(output),
        awaited(output) is None,
    ensures
        output.messages.len() == output.uids.len(),
        forall|i: int|
            0 <= i < output.uids.len() ==> (#[trigger] output.messages[i]).uid == output.uids[i],
{
}

// ---------------------------------------------------------------------------
// The end of a synchronization

/// What to do once the update document is written.
#[derive(Debug, Eq, PartialEq)]
pub enum AfterWriting {
    /// Run `curl` with these arguments, and go on with `after_applying`.
    Apply { arguments: Vec<String> },
    /// Tell the user this; the cursor stays where it is.
    Notice(String),
}

/// What to do once the endpoint has accepted the update.
#[derive(Debug, Eq, PartialEq)]
pub enum AfterApplying {
    /// Replace the content of the cursor file by this.
    SaveCursor(String),
    /// Tell the user this; the cursor stays where it is.
    Notice(String),
}

/// The arguments with which `curl` posts an update document to an endpoint.
pub open spec fn curl_command(output: Seq<char>, endpoint: Seq<char>) -> Seq<Seq<char>> {
    seq![
        "--fail-with-body"@,
        "--silent"@,
        "--show-error"@,
        "--request"@,
        "POST"@,
        "--header"@,
        "Content-Type: application/sparql-update"@,
        "--data-binary"@,
        "@"@ + output,
        endpoint,
    ]
}

/// The arguments with which `curl` posts an update document to an endpoint.
pub fn curl_arguments(output: &str, endpoint: &str) -> (arguments: Vec<String>)
    ensures
        text::texts(arguments@) == curl_command(output@, endpoint@),
{
    let mut file = "@".to_owned();
    file.append(output);
    let mut arguments: Vec<String> = Vec::new();
    arguments.push("--fail-with-body".to_owned());
    arguments.push("--silent".to_owned());
    arguments.push("--show-error".to_owned());
    arguments.push("--request".to_owned());
    arguments.push("POST".to_owned());
    arguments.push("--header".to_owned());
    arguments.push("Content-Type: application/sparql-update".to_owned());
    arguments.push("--data-binary".to_owned());
    arguments.push(file);
    arguments.push(endpoint.to_owned());
    arguments
}

/// The notice that nothing was sent to an endpoint.
pub open spec fn not_applied_notice(output: Seq<char>) -> Seq<char> {
    "No --sparql-endpoint was given; the cursor was not advanced. Apply "@ + output
        + " and rerun with --sparql-endpoint to make an acknowledged incremental sync."@
}

/// Decides what follows the writing of the update document to `output`: it is
/// sent to the endpoint, if there is one.
pub fn after_writing(endpoint: Option<&str>, output: &str) -> (next: AfterWriting)
    ensures
        match (next, endpoint) {
            (AfterWriting::Apply { arguments }, Some(e)) => text::texts(arguments@)
                == curl_command(output@, e@),
            (AfterWriting::Notice(s), None) => s@ == not_applied_notice(output@),
            _ => false,
        },
{
    match endpoint {
        Some(e) => AfterWriting::Apply { arguments: curl_arguments(output, e) },
        None => {
            let mut s =
                "No --sparql-endpoint was given; the cursor was not advanced. Apply ".to_owned();
            s.append(output);
            s.append(
                " and rerun with --sparql-endpoint to make an acknowledged incremental sync.",
            );
            AfterWriting::Notice(s)
        },
    }
}

/// The cursor to keep after an update, given whether the endpoint accepted it.
/// A cursor represents what the triplestore has accepted, not what was fetched.
pub open spec fn cursor_to_keep(accepted: bool, state: MailboxState) -> Option<SyncCursor> {
    if accepted && state.highest_mod_sequence is Some {
        Some(
            SyncCursor {
                uid_validity: state.uid_validity,
                highest_mod_sequence: state.highest_mod_sequence->0,
            },
        )
    } else {
        None
    }
}

/// The error when the endpoint did not accept an update.
pub open spec fn rejection(status: Seq<char>) -> Seq<char> {
    "SPARQL endpoint rejected the update (curl exited with "@ + status + ")"@
}

/// Decides what follows the attempt to apply the update. `accepted` tells
/// whether `curl` succeeded and `status` how it exited.
pub fn after_applying(accepted: bool, status: &str, state: MailboxState) -> (r: Result<
    AfterApplying,
    String,
>)
    ensures
        match r {
            Err(s) => !accepted && s@ == rejection(status@),
            Ok(AfterApplying::SaveCursor(content)) => cursor_to_keep(accepted, state) is Some
                && content@ == sync::cursor_text(cursor_to_keep(accepted, state)->0),
            Ok(AfterApplying::Notice(s)) => {
                &&& accepted
                &&& cursor_to_keep(accepted, state) is None
                &&& s@
                    == "Server did not provide HIGHESTMODSEQ; no cursor was saved and the next run will be a full refresh."@
            },
        },
{
    if !accepted {
        let mut s = "SPARQL endpoint rejected the update (curl exited with ".to_owned();
        s.append(status);
        s.append(")");
        return Err(s);
    }
    match sync::write_cursor(state) {
        Ok(content) => Ok(AfterApplying::SaveCursor(content)),
        Err(_) => Ok(
            AfterApplying::Notice(
                "Server did not provide HIGHESTMODSEQ; no cursor was saved and the next run will be a full refresh.".to_owned(),
            ),
        ),
    }
}

/// A cursor is kept only after the endpoint accepted the update and the server
/// reported a modification sequence, and the next run reads from it exactly the
/// state that was accepted.
pub proof fn cursor_follows_acceptance(accepted: bool, state: MailboxState)
    ensures
        cursor_to_keep(accepted, state) is Some <==> accepted
            && state.highest_mod_sequence is Some,
        cursor_to_keep(accepted, state) matches Some(cursor) ==> {
            &&& sync::cursor_in(sync::cursor_text(cursor)) == Some(cursor)
            &&& sync::state_of(cursor) == state
        },
{
    if accepted && state.highest_mod_sequence is Some {
        sync::reading_undoes_writing(cursor_to_keep(accepted, state)->0);
    }
}

// ---------------------------------------------------------------------------
// Summaries

/// How a synchronization went.
pub open spec fn mode(used_qresync: bool) -> Seq<char> {
    if used_qresync {
        "QRESYNC delta"@
    } else {
        "full refresh (QRESYNC unavailable, first run, or UIDVALIDITY changed)"@
    }
}

/// The last line that `sync` prints.
pub fn sync_summary(result: &MailboxSync, output: &str) -> (s: String)
    ensures
        s@ == "Wrote "@ + text::decimal(result@.changed.len()) + " changed message(s) and "@
            + text::decimal(result@.vanished.len()) + " vanished UID(s) as "@ + mode(
            result@.used_qresync,
        ) + " to "@ + output@,
{
    let mut s = "Wrote ".to_owned();
    s.append(text::decimal_string(result.changed.len() as u64).as_str());
    s.append(" changed message(s) and ");
    s.append(text::decimal_string(result.vanished.len() as u64).as_str());
    s.append(" vanished UID(s) as ");
    if result.used_qresync {
        s.append("QRESYNC delta");
    } else {
        s.append("full refresh (QRESYNC unavailable, first run, or UIDVALIDITY changed)");
    }
    s.append(" to ");
    s.append(output);
    s
}

/// The last line that `fetch` prints.
pub open spec fn fetch_sentence(fetched: nat, output: Seq<char>) -> Seq<char> {
    "Wrote "@ + text::decimal(fetched) + " messages to "@ + output
}

/// The last line that `fetch` prints.
pub fn fetch_summary(fetched: usize, output: &str) -> (s: String)
    ensures
        s@ == fetch_sentence(fetched as nat, output@),
{
    let mut s = "Wrote ".to_owned();
    s.append(text::decimal_string(fetched as u64).as_str());
    s.append(" messages to ");
    s.append(output);
    s
}

} // verus!
