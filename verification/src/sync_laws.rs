//! What cursors and updates are for.

use vstd::prelude::*;

use crate::imap;
use crate::imap::{MailboxState, MessageModel, SyncModel};
use crate::rdf;
use crate::sync;
use crate::sync::{SaveStep, SaveStepModel, SyncCursor};
use crate::text;

verus! {

// ---------------------------------------------------------------------------
// Updates

/// Each changed message, whatever its flags and its modification sequence, is
/// replaced: what is said of its source is deleted, and then all that is now said
/// of it is inserted. Each vanished message is deleted by its source.
pub proof fn each_message_is_replaced_or_deleted(
    account: Seq<char>,
    mailbox: Seq<char>,
    graph: Seq<char>,
    state: MailboxState,
    message: MessageModel,
    uid: u32,
    data_iri: Seq<char>,
    include_body: bool,
)
    ensures
        ({
            let changed = SyncModel {
                state,
                changed: seq![message],
                vanished: seq![],
                used_qresync: true,
                full_refresh: false,
            };
            sync::updates(account, mailbox, graph, changed, data_iri, include_body)
                == rdf::delete_source(
                "imap://"@ + message.account + "/"@ + message.mailbox + ";uid="@ + text::decimal(
                    message.uid as nat,
                ),
                graph,
            ) + ("INSERT DATA { GRAPH <"@ + graph + "> {\n"@ + rdf::document(
                rdf::message_statements(message, data_iri, include_body),
                None,
            ) + "} } ;\n"@)
        }),
        ({
            let vanished = SyncModel {
                state,
                changed: seq![],
                vanished: seq![uid],
                used_qresync: true,
                full_refresh: false,
            };
            sync::updates(account, mailbox, graph, vanished, data_iri, include_body)
                == rdf::delete_source(
                "imap://"@ + account + "/"@ + mailbox + ";uid="@ + text::decimal(uid as nat),
                graph,
            )
        }),
{
    reveal_with_fuel(sync::changed_updates, 2);
    reveal_with_fuel(sync::vanished_updates, 2);
    assert(seq![message].drop_last() =~= Seq::<MessageModel>::empty());
    assert(seq![uid].drop_last() =~= Seq::<u32>::empty());
    let changed = SyncModel {
        state,
        changed: seq![message],
        vanished: seq![],
        used_qresync: true,
        full_refresh: false,
    };
    let vanished = SyncModel {
        state,
        changed: seq![],
        vanished: seq![uid],
        used_qresync: true,
        full_refresh: false,
    };
    let source = imap::message_uri(message.account, message.mailbox, message.uid);
    assert(sync::updates(account, mailbox, graph, changed, data_iri, include_body)
        =~= rdf::delete_source(source, graph) + rdf::insert_message(
        message,
        graph,
        data_iri,
        include_body,
    ));
    assert(sync::updates(account, mailbox, graph, vanished, data_iri, include_body)
        =~= rdf::delete_source(imap::message_uri(account, mailbox, uid), graph));
}

/// The update for a synchronization deletes the whole mailbox if that was
/// refreshed, then the vanished messages, one after the other, and then replaces
/// the changed ones, one after the other. Nothing else of the synchronization
/// matters.
pub proof fn update_is_made_of_its_parts(
    account: Seq<char>,
    mailbox: Seq<char>,
    graph: Seq<char>,
    sync: SyncModel,
    a: Seq<u32>,
    b: Seq<u32>,
    c: Seq<MessageModel>,
    d: Seq<MessageModel>,
    data_iri: Seq<char>,
    include_body: bool,
)
    requires
        sync.vanished == a + b,
        sync.changed == c + d,
    ensures
        ({
            let part = |vanished: Seq<u32>, changed: Seq<MessageModel>|
                sync::updates(
                    account,
                    mailbox,
                    graph,
                    SyncModel { vanished, changed, full_refresh: false, ..sync },
                    data_iri,
                    include_body,
                );
            sync::updates(account, mailbox, graph, sync, data_iri, include_body) == (
            if sync.full_refresh {
                rdf::delete_mailbox(account, mailbox, graph)
            } else {
                seq![]
            }) + part(a, seq![]) + part(b, seq![]) + part(seq![], c) + part(seq![], d)
        }),
        ({
            let nothing = SyncModel {
                vanished: seq![],
                changed: seq![],
                full_refresh: false,
                ..sync
            };
            sync::updates(account, mailbox, graph, nothing, data_iri, include_body).len() == 0
        }),
{
    let part = |vanished: Seq<u32>, changed: Seq<MessageModel>|
        sync::updates(
            account,
            mailbox,
            graph,
            SyncModel { vanished, changed, full_refresh: false, ..sync },
            data_iri,
            include_body,
        );
    let va = sync::vanished_updates(account, mailbox, graph, a);
    let vb = sync::vanished_updates(account, mailbox, graph, b);
    let cc = sync::changed_updates(graph, c, data_iri, include_body);
    let cd = sync::changed_updates(graph, d, data_iri, include_body);
    sync::vanished_are_deleted_in_order(account, mailbox, graph, a, b);
    let first = SyncModel { vanished: seq![], changed: c, full_refresh: false, ..sync };
    sync::changes_are_applied_in_order(
        account,
        mailbox,
        graph,
        first,
        d,
        data_iri,
        include_body,
    );
    let none = sync::vanished_updates(account, mailbox, graph, seq![]);
    let still = sync::changed_updates(graph, seq![], data_iri, include_body);
    assert(none.len() == 0 && still.len() == 0);
    assert(part(a, seq![]) =~= va);
    assert(part(b, seq![]) =~= vb);
    assert(part(seq![], c) =~= cc);
    assert(part(seq![], d) =~= cd);
    assert(sync::changed_updates(graph, c + d, data_iri, include_body) =~= cc + cd) by {
        let both = SyncModel { changed: first.changed + d, ..first };
        assert(sync::updates(account, mailbox, graph, both, data_iri, include_body)
            =~= sync::changed_updates(graph, c + d, data_iri, include_body));
        let rest = SyncModel { changed: d, vanished: seq![], full_refresh: false, ..first };
        assert(sync::updates(account, mailbox, graph, rest, data_iri, include_body) =~= cd);
        assert(sync::updates(account, mailbox, graph, first, data_iri, include_body) =~= cc);
    }
    let clear = if sync.full_refresh {
        rdf::delete_mailbox(account, mailbox, graph)
    } else {
        seq![]
    };
    assert(sync::updates(account, mailbox, graph, sync, data_iri, include_body) =~= clear + part(
        a,
        seq![],
    ) + part(b, seq![]) + part(seq![], c) + part(seq![], d));
}

// ---------------------------------------------------------------------------
// Cursors

/// A cursor file holds three lines: the version, the UID validity and the
/// modification sequence, both in decimal.
pub proof fn cursor_file_spells_the_cursor(cursor: SyncCursor)
    ensures
        sync::cursor_text(cursor) == "version=1\n"@ + ("uid_validity="@ + text::decimal(
            cursor.uid_validity as nat,
        ) + "\n"@) + ("highest_mod_sequence="@ + text::decimal(cursor.highest_mod_sequence as nat)
            + "\n"@),
        sync::state_of(cursor) == (MailboxState {
            uid_validity: cursor.uid_validity,
            highest_mod_sequence: Some(cursor.highest_mod_sequence),
        }),
{
    reveal_strlit("version=1\nuid_validity=");
    reveal_strlit("\nhighest_mod_sequence=");
    reveal_strlit("\n");
    reveal_strlit("version=1\n");
    reveal_strlit("uid_validity=");
    reveal_strlit("highest_mod_sequence=");
    assert(sync::cursor_text(cursor) =~= "version=1\n"@ + ("uid_validity="@ + text::decimal(
        cursor.uid_validity as nat,
    ) + "\n"@) + ("highest_mod_sequence="@ + text::decimal(cursor.highest_mod_sequence as nat)
        + "\n"@));
}

/// A setting is the number behind the key on the last line that begins with the
/// key, if it is a number within bounds; without such a line there is none.
pub proof fn last_line_of_a_key_counts(
    lines: Seq<Seq<char>>,
    key: Seq<char>,
    max: nat,
    value: Seq<char>,
    later: Seq<Seq<char>>,
)
    requires
        forall|i: int, r: Seq<char>| 0 <= i < later.len() ==> #[trigger] later[i] != #[trigger] (key
            + r),
    ensures
        sync::setting(lines.push(key + value) + later, key, max) == text::parsed_decimal(
            value,
            max,
        ),
        sync::setting(later, key, max) is None,
    decreases later.len(),
{
    let all = lines.push(key + value) + later;
    if later.len() == 0 {
        assert(all =~= lines.push(key + value));
        assert((key + value).take(key.len() as int) =~= key);
        assert((key + value).skip(key.len() as int) =~= value);
    } else {
        let before = later.drop_last();
        assert forall|i: int, r: Seq<char>| 0 <= i < before.len() implies #[trigger] before[i]
            != #[trigger] (key + r) by {
            assert(before[i] == later[i]);
        }
        last_line_of_a_key_counts(lines, key, max, value, before);
        let last = later.last();
        assert(last == later[later.len() - 1]);
        if text::has_prefix(last, key) {
            let r = last.skip(key.len() as int);
            assert(last =~= key + r);
        }
        assert(all.drop_last() =~= lines.push(key + value) + before);
        assert(all.last() == last);
    }
}

/// A cursor is read exactly if both settings are there, each within its type's
/// bounds, and it is made of them.
pub proof fn cursor_is_made_of_both_settings(content: Seq<char>)
    ensures
        ({
            let lines = text::lines(content);
            let v = sync::setting(lines, "uid_validity="@, 4294967295);
            let h = sync::setting(lines, "highest_mod_sequence="@, 18446744073709551615);
            match sync::cursor_in(content) {
                Some(cursor) => v == Some(cursor.uid_validity as nat) && h == Some(
                    cursor.highest_mod_sequence as nat,
                ),
                None => v is None || h is None,
            }
        }),
{
    setting_is_within_bounds(text::lines(content), "uid_validity="@, 4294967295);
    setting_is_within_bounds(
        text::lines(content),
        "highest_mod_sequence="@,
        18446744073709551615,
    );
}

proof fn setting_is_within_bounds(lines: Seq<Seq<char>>, key: Seq<char>, max: nat)
    ensures
        sync::setting(lines, key, max) matches Some(n) ==> n <= max,
    decreases lines.len(),
{
    if lines.len() > 0 {
        setting_is_within_bounds(lines.drop_last(), key, max);
    }
}

/// A cursor is saved by a directory, a temporary file with the whole content, and
/// a rename, in this order.
pub proof fn saving_takes_three_steps(content: Seq<char>)
    ensures
        ({
            let steps = sync::steps_to_save(content);
            &&& steps.len() == 3
            &&& steps[0] is CreateDirectory
            &&& steps[1] == SaveStepModel::WriteTemporary(content)
            &&& steps[2] is RenameTemporary
        }),
{
}

/// The models of steps hold what the steps hold.
pub proof fn step_models_hold_all_fields(steps: Seq<SaveStep>)
    ensures
        sync::step_models(steps).len() == steps.len(),
        forall|i: int|
            0 <= i < steps.len() ==> {
                let model = sync::step_models(steps)[i];
                match #[trigger] steps[i] {
                    SaveStep::CreateDirectory => model is CreateDirectory,
                    SaveStep::WriteTemporary(content) => model == SaveStepModel::WriteTemporary(
                        content@,
                    ),
                    SaveStep::RenameTemporary => model is RenameTemporary,
                }
            },
{
}

} // verus!
