//! The QRESYNC cursor and SPARQL Update serialization.
//!
//! A cursor is kept in a file of its own between synchronizations. This module
//! reads and writes the file's text.

use vstd::prelude::*;

use crate::imap;
use crate::imap::{MailboxState, MailboxSync};
use crate::rdf;
use crate::rdf::RdfOptions;
use crate::text;

verus! {

/// Where an earlier synchronization left off.
#[derive(Clone, Copy, Debug, Eq, PartialEq)]
pub struct SyncCursor {
    pub uid_validity: u32,
    pub highest_mod_sequence: u64,
}

/// The state that a cursor stands for.
pub open spec fn state_of(cursor: SyncCursor) -> MailboxState {
    MailboxState {
        uid_validity: cursor.uid_validity,
        highest_mod_sequence: Some(cursor.highest_mod_sequence),
    }
}

impl SyncCursor {
    /// The state that the cursor stands for.
    pub fn mailbox_state(self) -> (state: MailboxState)
        ensures
            state == state_of(self),
    {
        MailboxState {
            uid_validity: self.uid_validity,
            highest_mod_sequence: Some(self.highest_mod_sequence),
        }
    }
}

/// Why there is no cursor.
#[derive(Clone, Copy, Debug, Eq, PartialEq, Structural)]
pub enum CursorError {
    /// The text lacks one of the two numbers.
    Invalid,
    /// The server did not provide a modification sequence to keep.
    NoModSequence,
}

impl CursorError {
    /// The sentence that tells a user about the error.
    pub fn describe(&self) -> (s: String)
        ensures
            self is Invalid ==> s@ == "invalid IMAP sync cursor"@,
            self is NoModSequence ==> s@
                == "server did not provide HIGHESTMODSEQ; cannot safely create a QRESYNC cursor"@,
    {
        match self {
            CursorError::Invalid => "invalid IMAP sync cursor".to_owned(),
            CursorError::NoModSequence => {
                "server did not provide HIGHESTMODSEQ; cannot safely create a QRESYNC cursor"
                    .to_owned()
            },
        }
    }
}

/// What the last line with the given key says: the number that follows the key,
/// if it is one that does not exceed `max`.
pub open spec fn setting(lines: Seq<Seq<char>>, key: Seq<char>, max: nat) -> Option<nat>
    decreases lines.len(),
{
    if lines.len() == 0 {
        None
    } else {
        match text::strip_prefix_of(lines.last(), key) {
            Some(value) => text::parsed_decimal(value, max),
            None => setting(lines.drop_last(), key, max),
        }
    }
}

/// The cursor in the text of a cursor file.
pub open spec fn cursor_in(content: Seq<char>) -> Option<SyncCursor> {
    let lines = text::lines(content);
    match (
        setting(lines, "uid_validity="@, u32::MAX as nat),
        setting(lines, "highest_mod_sequence="@, u64::MAX as nat),
    ) {
        (Some(v), Some(h)) => Some(
            SyncCursor { uid_validity: v as u32, highest_mod_sequence: h as u64 },
        ),
        _ => None,
    }
}

fn read_setting(lines: &Vec<&[char]>, key: &str, max: u64) -> (r: Option<u64>)
    ensures
        r is Some <==> setting(text::slices(lines@), key@, max as nat) is Some,
        r matches Some(n) ==> setting(text::slices(lines@), key@, max as nat) == Some(n as nat),
{
    let ghost all = text::slices(lines@);
    let mut end: usize = lines.len();
    assert(all.take(end as int) == all);
    while end > 0
        invariant
            end <= lines@.len(),
            all == text::slices(lines@),
            setting(all, key@, max as nat) == setting(all.take(end as int), key@, max as nat),
        decreases end,
    {
        let line: &[char] = lines[end - 1];
        proof {
            assert(all.take(end as int).last() == line@);
            assert(all.take(end as int).drop_last() == all.take(end - 1));
        }
        if let Some(value) = text::strip_prefix(line, key) {
            return text::parse_decimal(value, max);
        }
        end -= 1;
    }
    None
}

/// Reads the cursor. A missing file, which has no content, intentionally
/// represents the first, full sync.
pub fn read_cursor(content: Option<&str>) -> (r: Result<Option<SyncCursor>, CursorError>)
    ensures
        content is None ==> r == Ok::<Option<SyncCursor>, CursorError>(None),
        content matches Some(s) ==> match cursor_in(s@) {
            Some(cursor) => r == Ok::<Option<SyncCursor>, CursorError>(Some(cursor)),
            None => r == Err::<Option<SyncCursor>, CursorError>(CursorError::Invalid),
        },
{
    let content = match content {
        Some(s) => s,
        None => {
            return Ok(None);
        },
    };
    let chars = text::chars_of(content);
    let lines = text::split_lines(chars.as_slice());
    let uid_validity = read_setting(&lines, "uid_validity=", u32::MAX as u64);
    let highest = read_setting(&lines, "highest_mod_sequence=", u64::MAX);
    match (uid_validity, highest) {
        (Some(v), Some(h)) => Ok(
            Some(SyncCursor { uid_validity: v as u32, highest_mod_sequence: h }),
        ),
        _ => Err(CursorError::Invalid),
    }
}

/// The text of a cursor file.
pub open spec fn cursor_text(cursor: SyncCursor) -> Seq<char> {
    "version=1\nuid_validity="@ + text::decimal(cursor.uid_validity as nat)
        + "\nhighest_mod_sequence="@ + text::decimal(cursor.highest_mod_sequence as nat) + "\n"@
}

/// The text of the cursor file for a state. There is none without a
/// modification sequence.
pub fn write_cursor(state: MailboxState) -> (r: Result<String, CursorError>)
    ensures
        state.highest_mod_sequence is None ==> r == Err::<String, CursorError>(
            CursorError::NoModSequence,
        ),
        state.highest_mod_sequence matches Some(h) ==> r is Ok && r->Ok_0@ == cursor_text(
            SyncCursor { uid_validity: state.uid_validity, highest_mod_sequence: h },
        ),
{
    match state.highest_mod_sequence {
        None => Err(CursorError::NoModSequence),
        Some(h) => {
            let mut content = "version=1\nuid_validity=".to_owned();
            content.append(text::decimal_string(state.uid_validity as u64).as_str());
            content.append("\nhighest_mod_sequence=");
            content.append(text::decimal_string(h).as_str());
            content.append("\n");
            Ok(content)
        },
    }
}

/// Digits hold no end of a line.
proof fn numeral_is_one_line(prefix: Seq<char>, n: nat)
    requires
        !prefix.contains('\n'),
    ensures
        !(prefix + text::decimal(n)).contains('\n'),
        (prefix + text::decimal(n)).last() != '\r',
{
    let d = text::decimal(n);
    text::decimal_is_digits(n);
    assert('0' <= d[d.len() - 1] <= '9');
    if (prefix + d).contains('\n') {
        let i = (prefix + d).index_of('\n');
        if i < prefix.len() {
            assert(prefix[i] == '\n');
        } else {
            assert('0' <= d[i - prefix.len()] <= '9');
        }
    }
}

/// The lines of a cursor file.
proof fn lines_of_cursor(cursor: SyncCursor)
    ensures
        text::lines(cursor_text(cursor)) == seq![
            "version=1"@,
            "uid_validity="@ + text::decimal(cursor.uid_validity as nat),
            "highest_mod_sequence="@ + text::decimal(cursor.highest_mod_sequence as nat),
        ],
{
    reveal_strlit("version=1\nuid_validity=");
    reveal_strlit("\nhighest_mod_sequence=");
    reveal_strlit("\n");
    reveal_strlit("version=1");
    reveal_strlit("uid_validity=");
    reveal_strlit("highest_mod_sequence=");
    let first = "version=1"@;
    let second = "uid_validity="@ + text::decimal(cursor.uid_validity as nat);
    let third = "highest_mod_sequence="@ + text::decimal(cursor.highest_mod_sequence as nat);
    let empty = Seq::<char>::empty();
    numeral_is_one_line("uid_validity="@, cursor.uid_validity as nat);
    numeral_is_one_line("highest_mod_sequence="@, cursor.highest_mod_sequence as nat);
    text::lines_of_line_and_rest(third, empty);
    text::lines_of_line_and_rest(second, third.push('\n') + empty);
    text::lines_of_line_and_rest(first, second.push('\n') + (third.push('\n') + empty));
    assert(cursor_text(cursor) =~= first.push('\n') + (second.push('\n') + (third.push('\n')
        + empty)));
    assert(text::lines(empty) == Seq::<Seq<char>>::empty());
    assert(text::lines(cursor_text(cursor)) =~= seq![first, second, third]);
}

/// Reading a cursor file gives back the cursor that was written.
pub proof fn reading_undoes_writing(cursor: SyncCursor)
    ensures
        cursor_in(cursor_text(cursor)) == Some(cursor),
{
    let v = text::decimal(cursor.uid_validity as nat);
    let h = text::decimal(cursor.highest_mod_sequence as nat);
    let all = text::lines(cursor_text(cursor));
    lines_of_cursor(cursor);
    reveal_strlit("uid_validity=");
    reveal_strlit("highest_mod_sequence=");
    text::parse_undoes_decimal(cursor.uid_validity as nat, u32::MAX as nat);
    text::parse_undoes_decimal(cursor.highest_mod_sequence as nat, u64::MAX as nat);
    let k1 = "uid_validity="@;
    let k2 = "highest_mod_sequence="@;
    // The last line holds the second key and not the first.
    assert((k2 + h).take(k2.len() as int) == k2);
    assert((k2 + h).skip(k2.len() as int) == h);
    assert(setting(all, k2, u64::MAX as nat) == Some(cursor.highest_mod_sequence as nat));
    assert((k2 + h).take(k1.len() as int)[0] == 'h');
    assert(k1[0] == 'u');
    assert(!text::has_prefix(k2 + h, k1));
    assert((k1 + v).take(k1.len() as int) == k1);
    assert((k1 + v).skip(k1.len() as int) == v);
    assert(all.drop_last().last() == k1 + v);
    assert(setting(all.drop_last(), k1, u32::MAX as nat) == Some(cursor.uid_validity as nat));
    assert(setting(all, k1, u32::MAX as nat) == Some(cursor.uid_validity as nat));
}

// ---------------------------------------------------------------------------
// Saving a cursor

/// A step on the way to a new cursor file. The temporary file lies beside the
/// cursor file.
#[derive(Debug, Eq, PartialEq)]
pub enum SaveStep {
    /// Create the directory of the cursor file, if it has one.
    CreateDirectory,
    /// Write the temporary file.
    WriteTemporary(String),
    /// Rename the temporary file to the cursor file.
    RenameTemporary,
}

/// What a step says.
pub enum SaveStepModel {
    CreateDirectory,
    WriteTemporary(Seq<char>),
    RenameTemporary,
}

impl View for SaveStep {
    type V = SaveStepModel;

    open spec fn view(&self) -> SaveStepModel {
        match self {
            SaveStep::CreateDirectory => SaveStepModel::CreateDirectory,
            SaveStep::WriteTemporary(content) => SaveStepModel::WriteTemporary(content@),
            SaveStep::RenameTemporary => SaveStepModel::RenameTemporary,
        }
    }
}

/// What a sequence of steps says.
pub open spec fn step_models(steps: Seq<SaveStep>) -> Seq<SaveStepModel> {
    Seq::new(steps.len(), |i: int| steps[i]@)
}

/// The steps that replace the content of the cursor file.
pub open spec fn steps_to_save(content: Seq<char>) -> Seq<SaveStepModel> {
    seq![
        SaveStepModel::CreateDirectory,
        SaveStepModel::WriteTemporary(content),
        SaveStepModel::RenameTemporary,
    ]
}

/// The steps that replace the content of the cursor file, in their order. After
/// a step that fails, none follows.
pub fn save_steps(content: &str) -> (steps: Vec<SaveStep>)
    ensures
        step_models(steps@) == steps_to_save(content@),
{
    let mut steps: Vec<SaveStep> = Vec::new();
    steps.push(SaveStep::CreateDirectory);
    steps.push(SaveStep::WriteTemporary(content.to_owned()));
    steps.push(SaveStep::RenameTemporary);
    assert(step_models(steps@) =~= steps_to_save(content@));
    steps
}

/// The contents of the cursor file and of the temporary file, if they exist.
/// These are two files, unless the cursor file's own extension is that of the
/// temporary one.
pub struct CursorFiles {
    pub cursor: Option<Seq<char>>,
    pub temporary: Option<Seq<char>>,
}

/// The files after a step.
pub open spec fn after_step(files: CursorFiles, step: SaveStepModel) -> CursorFiles {
    match step {
        SaveStepModel::CreateDirectory => files,
        SaveStepModel::WriteTemporary(content) => CursorFiles {
            temporary: Some(content),
            ..files
        },
        SaveStepModel::RenameTemporary => CursorFiles { cursor: files.temporary, temporary: None },
    }
}

/// The files after several steps.
pub open spec fn after_steps(files: CursorFiles, steps: Seq<SaveStepModel>) -> CursorFiles
    decreases steps.len(),
{
    if steps.len() == 0 {
        files
    } else {
        after_step(after_steps(files, steps.drop_last()), steps.last())
    }
}

/// A cursor is replaced as a whole or not at all: if the cursor file and the
/// temporary file are two files, then whichever step fails, the cursor file is as
/// it was, and after the last step it holds the new content. A cursor file with
/// the extension of the temporary file is written in place instead, and a write
/// that fails can leave it cut short.
pub proof fn failed_save_keeps_cursor(files: CursorFiles, content: Seq<char>)
    ensures
        forall|done: int|
            0 <= done < steps_to_save(content).len() ==> (#[trigger] after_steps(
                files,
                steps_to_save(content).take(done),
            )).cursor == files.cursor,
        after_steps(files, steps_to_save(content)).cursor == Some(content),
{
    let steps = steps_to_save(content);
    reveal_with_fuel(after_steps, 4);
    assert(steps.drop_last() =~= steps.take(2));
    assert(steps.take(2).drop_last() =~= steps.take(1));
    assert(steps.take(1).drop_last() =~= steps.take(0));
    assert forall|done: int| 0 <= done < steps.len() implies (#[trigger] after_steps(
        files,
        steps.take(done),
    )).cursor == files.cursor by {
        assert(done == 0 || done == 1 || done == 2);
    }
}

// ---------------------------------------------------------------------------
// SPARQL updates

/// The updates that delete vanished messages.
pub open spec fn vanished_updates(
    account: Seq<char>,
    mailbox: Seq<char>,
    graph: Seq<char>,
    uids: Seq<u32>,
) -> Seq<char>
    decreases uids.len(),
{
    if uids.len() == 0 {
        seq![]
    } else {
        vanished_updates(account, mailbox, graph, uids.drop_last()) + rdf::delete_source(
            imap::message_uri(account, mailbox, uids.last()),
            graph,
        )
    }
}

/// The updates that replace what is said of changed messages.
pub open spec fn changed_updates(
    graph: Seq<char>,
    messages: Seq<imap::MessageModel>,
    data_iri: Seq<char>,
    include_body: bool,
) -> Seq<char>
    decreases messages.len(),
{
    if messages.len() == 0 {
        seq![]
    } else {
        let m = messages.last();
        changed_updates(graph, messages.drop_last(), data_iri, include_body) + rdf::delete_source(
            imap::message_uri(m.account, m.mailbox, m.uid),
            graph,
        ) + rdf::insert_message(m, graph, data_iri, include_body)
    }
}

/// The updates for one synchronization.
pub open spec fn updates(
    account: Seq<char>,
    mailbox: Seq<char>,
    graph: Seq<char>,
    sync: imap::SyncModel,
    data_iri: Seq<char>,
    include_body: bool,
) -> Seq<char> {
    let clear = if sync.full_refresh {
        rdf::delete_mailbox(account, mailbox, graph)
    } else {
        seq![]
    };
    clear + vanished_updates(account, mailbox, graph, sync.vanished) + changed_updates(
        graph,
        sync.changed,
        data_iri,
        include_body,
    )
}

/// Makes a transactional SPARQL 1.1 Update document for one IMAP response.
pub fn sparql_update(
    account: &str,
    mailbox: &str,
    graph: &str,
    sync: &MailboxSync,
    options: &RdfOptions,
) -> (update: String)
    ensures
        update@ == updates(
            account@,
            mailbox@,
            graph@,
            sync@,
            options.data_iri@,
            options.include_body,
        ),
{
    let mut update = String::new();
    if sync.full_refresh {
        update.append(rdf::delete_mailbox_update(account, mailbox, graph).as_str());
    }
    let ghost clear = update@;
    let ghost uids = sync@.vanished;
    let mut i: usize = 0;
    assert(uids.take(0) == Seq::<u32>::empty());
    assert(update@ == clear + vanished_updates(account@, mailbox@, graph@, uids.take(0)));
    while i < sync.vanished.len()
        invariant
            i <= sync.vanished@.len(),
            uids == sync.vanished@,
            update@ == clear + vanished_updates(
                account@,
                mailbox@,
                graph@,
                uids.take(i as int),
            ),
        decreases sync.vanished.len() - i,
    {
        let uid: u32 = sync.vanished[i];
        proof {
            assert(uids.take(i + 1).drop_last() == uids.take(i as int));
            assert(uids.take(i + 1).last() == uid);
        }
        update.append(rdf::delete_uid_update(account, mailbox, uid, graph).as_str());
        i += 1;
        assert(update@ == clear + vanished_updates(
            account@,
            mailbox@,
            graph@,
            uids.take(i as int),
        ));
    }
    assert(uids.take(i as int) == uids);
    let ghost deleted = update@;
    let ghost messages = sync@.changed;
    let mut k: usize = 0;
    assert(messages.take(0) == Seq::<imap::MessageModel>::empty());
    assert(update@ == deleted + changed_updates(
        graph@,
        messages.take(0),
        options.data_iri@,
        options.include_body,
    ));
    while k < sync.changed.len()
        invariant
            k <= sync.changed@.len(),
            messages == imap::message_models(sync.changed@),
            update@ == deleted + changed_updates(
                graph@,
                messages.take(k as int),
                options.data_iri@,
                options.include_body,
            ),
        decreases sync.changed.len() - k,
    {
        let message = &sync.changed[k];
        proof {
            assert(messages.take(k + 1).drop_last() == messages.take(k as int));
            assert(messages.take(k + 1).last() == message@);
        }
        update.append(rdf::delete_message_update(message, graph).as_str());
        update.append(rdf::insert_message_update(message, graph, options).as_str());
        k += 1;
        assert(update@ == deleted + changed_updates(
            graph@,
            messages.take(k as int),
            options.data_iri@,
            options.include_body,
        ));
    }
    assert(messages.take(k as int) == messages);
    update
}

/// A delta without changes needs no update.
pub proof fn no_change_needs_no_update(
    account: Seq<char>,
    mailbox: Seq<char>,
    graph: Seq<char>,
    sync: imap::SyncModel,
    data_iri: Seq<char>,
    include_body: bool,
)
    requires
        !sync.full_refresh,
        sync.vanished.len() == 0,
        sync.changed.len() == 0,
    ensures
        updates(account, mailbox, graph, sync, data_iri, include_body).len() == 0,
{
}

/// A full refresh first deletes the mailbox, and then does what a delta with
/// the same messages would.
pub proof fn full_refresh_clears_first(
    account: Seq<char>,
    mailbox: Seq<char>,
    graph: Seq<char>,
    sync: imap::SyncModel,
    data_iri: Seq<char>,
    include_body: bool,
)
    requires
        sync.full_refresh,
    ensures
        ({
            let delta = imap::SyncModel { full_refresh: false, ..sync };
            updates(account, mailbox, graph, sync, data_iri, include_body) == rdf::delete_mailbox(
                account,
                mailbox,
                graph,
            ) + updates(account, mailbox, graph, delta, data_iri, include_body)
        }),
{
    let delta = imap::SyncModel { full_refresh: false, ..sync };
    assert(updates(account, mailbox, graph, sync, data_iri, include_body) =~= rdf::delete_mailbox(
        account,
        mailbox,
        graph,
    ) + updates(account, mailbox, graph, delta, data_iri, include_body));
}

/// The update for two lists of changes, one behind the other, is the update for
/// the first followed by the update that a delta with the second alone needs.
pub proof fn changes_are_applied_in_order(
    account: Seq<char>,
    mailbox: Seq<char>,
    graph: Seq<char>,
    sync: imap::SyncModel,
    more: Seq<imap::MessageModel>,
    data_iri: Seq<char>,
    include_body: bool,
)
    ensures
        ({
            let both = imap::SyncModel { changed: sync.changed + more, ..sync };
            let rest = imap::SyncModel {
                changed: more,
                vanished: seq![],
                full_refresh: false,
                ..sync
            };
            updates(account, mailbox, graph, both, data_iri, include_body) == updates(
                account,
                mailbox,
                graph,
                sync,
                data_iri,
                include_body,
            ) + updates(account, mailbox, graph, rest, data_iri, include_body)
        }),
{
    let both = imap::SyncModel { changed: sync.changed + more, ..sync };
    let rest = imap::SyncModel { changed: more, vanished: seq![], full_refresh: false, ..sync };
    changed_updates_distribute(graph, sync.changed, more, data_iri, include_body);
    assert(updates(account, mailbox, graph, both, data_iri, include_body) =~= updates(
        account,
        mailbox,
        graph,
        sync,
        data_iri,
        include_body,
    ) + updates(account, mailbox, graph, rest, data_iri, include_body));
}

proof fn changed_updates_distribute(
    graph: Seq<char>,
    a: Seq<imap::MessageModel>,
    b: Seq<imap::MessageModel>,
    data_iri: Seq<char>,
    include_body: bool,
)
    ensures
        changed_updates(graph, a + b, data_iri, include_body) == changed_updates(
            graph,
            a,
            data_iri,
            include_body,
        ) + changed_updates(graph, b, data_iri, include_body),
    decreases b.len(),
{
    if b.len() == 0 {
        assert(a + b == a);
    } else {
        changed_updates_distribute(graph, a, b.drop_last(), data_iri, include_body);
        assert((a + b).drop_last() == a + b.drop_last());
        assert(changed_updates(graph, a + b, data_iri, include_body) =~= changed_updates(
            graph,
            a,
            data_iri,
            include_body,
        ) + changed_updates(graph, b, data_iri, include_body));
    }
}

/// The update for two lists of vanished messages deletes those of the first and
/// then those of the second.
pub proof fn vanished_are_deleted_in_order(
    account: Seq<char>,
    mailbox: Seq<char>,
    graph: Seq<char>,
    a: Seq<u32>,
    b: Seq<u32>,
)
    ensures
        vanished_updates(account, mailbox, graph, a + b) == vanished_updates(
            account,
            mailbox,
            graph,
            a,
        ) + vanished_updates(account, mailbox, graph, b),
    decreases b.len(),
{
    if b.len() == 0 {
        assert(a + b == a);
    } else {
        vanished_are_deleted_in_order(account, mailbox, graph, a, b.drop_last());
        assert((a + b).drop_last() == a + b.drop_last());
        assert(vanished_updates(account, mailbox, graph, a + b) =~= vanished_updates(
            account,
            mailbox,
            graph,
            a,
        ) + vanished_updates(account, mailbox, graph, b));
    }
}

} // verus!
