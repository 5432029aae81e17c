//! What the decisions and the messages of the command-line program are for.

use vstd::prelude::*;

use crate::cli;
use crate::imap::{MailboxState, MessageModel};
use crate::rdf;
use crate::text;

verus! {

/// The graph is the one that was asked for, whatever the user, and otherwise the
/// one that the whole user name makes.
pub proof fn graph_is_as_asked_or_by_user(graph: Seq<char>, username: Seq<char>)
    ensures
        cli::chosen_graph(Some(graph), username) == graph,
        cli::chosen_graph(None, username) == "urn:email:"@ + username,
{
}

/// A missing secret is named in the message, in quotes and in full.
pub proof fn missing_secret_is_named(quote: Seq<char>)
    ensures
        cli::missing_secret_sentence(quote) == "authentication-secret environment variable "@
            + quote + " is not set"@,
{
}

/// `curl` is made to post the file that was written, as a SPARQL update, to the
/// endpoint that was asked for, and to fail if that refuses it.
pub proof fn curl_posts_the_file(output: Seq<char>, endpoint: Seq<char>)
    ensures
        ({
            let arguments = cli::curl_command(output, endpoint);
            &&& arguments.len() == 10
            &&& arguments[0] == "--fail-with-body"@
            &&& arguments[1] == "--silent"@
            &&& arguments[2] == "--show-error"@
            &&& arguments[3] == "--request"@
            &&& arguments[4] == "POST"@
            &&& arguments[5] == "--header"@
            &&& arguments[6] == "Content-Type: application/sparql-update"@
            &&& arguments[7] == "--data-binary"@
            &&& arguments[8] == "@"@ + output
            &&& arguments[9] == endpoint
        }),
{
}

/// A cursor is kept exactly after an accepted update with a modification sequence,
/// and holds the whole state.
pub proof fn cursor_holds_the_accepted_state(accepted: bool, state: MailboxState)
    ensures
        match cli::cursor_to_keep(accepted, state) {
            Some(cursor) => accepted && cursor.uid_validity == state.uid_validity && Some(
                cursor.highest_mod_sequence,
            ) == state.highest_mod_sequence,
            None => !accepted || state.highest_mod_sequence is None,
        },
{
}

/// The messages to the user name the file, the exit status and the numbers that
/// they are about.
pub proof fn messages_name_what_they_are_about(output: Seq<char>, status: Seq<char>, n: nat)
    ensures
        cli::not_applied_notice(output)
            == "No --sparql-endpoint was given; the cursor was not advanced. Apply "@ + output
            + " and rerun with --sparql-endpoint to make an acknowledged incremental sync."@,
        cli::rejection(status) == "SPARQL endpoint rejected the update (curl exited with "@ + status
            + ")"@,
        cli::fetch_sentence(n, output) == "Wrote "@ + text::decimal(n) + " messages to "@ + output,
        cli::mode(true) == "QRESYNC delta"@,
        cli::mode(false)
            == "full refresh (QRESYNC unavailable, first run, or UIDVALIDITY changed)"@,
{
}

/// The output is the N-Triples or N-Quads of every message, one message after the
/// other.
pub proof fn output_holds_every_message(
    a: Seq<MessageModel>,
    b: Seq<MessageModel>,
    message: MessageModel,
    data_iri: Seq<char>,
    include_body: bool,
    graph: Option<Seq<char>>,
)
    ensures
        cli::message_texts(Seq::<MessageModel>::empty(), data_iri, include_body, graph).len() == 0,
        cli::message_texts(seq![message], data_iri, include_body, graph) == rdf::document(
            rdf::message_statements(message, data_iri, include_body),
            graph,
        ),
        cli::message_texts(a + b, data_iri, include_body, graph) == cli::message_texts(
            a,
            data_iri,
            include_body,
            graph,
        ) + cli::message_texts(b, data_iri, include_body, graph),
{
    one_message(message, data_iri, include_body, graph);
    messages_follow_one_another(a, b, data_iri, include_body, graph);
}

proof fn one_message(
    message: MessageModel,
    data_iri: Seq<char>,
    include_body: bool,
    graph: Option<Seq<char>>,
)
    ensures
        cli::message_texts(seq![message], data_iri, include_body, graph) == rdf::document(
            rdf::message_statements(message, data_iri, include_body),
            graph,
        ),
{
    let none = seq![message].drop_last();
    let text = rdf::document(rdf::message_statements(message, data_iri, include_body), graph);
    assert(cli::message_texts(none, data_iri, include_body, graph) == Seq::<char>::empty());
    assert(seq![message].last() == message);
    assert(Seq::<char>::empty() + text =~= text);
}

proof fn messages_follow_one_another(
    a: Seq<MessageModel>,
    b: Seq<MessageModel>,
    data_iri: Seq<char>,
    include_body: bool,
    graph: Option<Seq<char>>,
)
    ensures
        cli::message_texts(a + b, data_iri, include_body, graph) == cli::message_texts(
            a,
            data_iri,
            include_body,
            graph,
        ) + cli::message_texts(b, data_iri, include_body, graph),
    decreases b.len(),
{
    let x = cli::message_texts(a, data_iri, include_body, graph);
    if b.len() == 0 {
        assert(a + b =~= a);
        assert(x + Seq::<char>::empty() =~= x);
    } else {
        let before = b.drop_last();
        messages_follow_one_another(a, before, data_iri, include_body, graph);
        assert((a + b).drop_last() =~= a + before);
        assert((a + b).last() == b.last());
        let y = cli::message_texts(before, data_iri, include_body, graph);
        let z = rdf::document(rdf::message_statements(b.last(), data_iri, include_body), graph);
        assert((x + y) + z =~= x + (y + z));
    }
}

/// What was written is the output of the messages so far, and the next message is
/// that with the first UID for which none has come.
pub proof fn output_goes_on_where_it_stopped(output: cli::FetchOutputModel)
    ensures
        cli::written(output) == cli::message_texts(
            output.messages,
            output.data_iri,
            output.include_body,
            output.graph,
        ),
        output.messages.len() < output.uids.len() ==> cli::awaited(output) == Some(
            output.uids[output.messages.len() as int],
        ),
        output.messages.len() >= output.uids.len() ==> cli::awaited(output) is None,
{
}

} // verus!
