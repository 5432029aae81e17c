//! What the operations on a store are for.

use vstd::prelude::*;

use crate::store;
use crate::store::{ErrorModel, EventModel, MailError, MailEvent, MailboxRole, StoreModel};
use crate::text;

verus! {

/// Whether a mailbox exists and has the Trash role.
pub open spec fn has_trash_role(store: StoreModel, name: Seq<char>) -> bool {
    store.mailboxes.dom().contains(name) && store.mailboxes[name] == MailboxRole::Trash
}

/// Whether a mailbox is the one with the Trash role whose name comes first.
pub open spec fn is_trash_of(store: StoreModel, name: Seq<char>) -> bool {
    has_trash_role(store, name) && forall|other: Seq<char>| #[trigger]
        has_trash_role(store, other) && other != name ==> text::precedes(name, other)
}

proof fn target_is_the_trash(store: StoreModel)
    requires
        store::valid(store),
    ensures
        store::trash_target(store.mailboxes) matches Some(name) ==> is_trash_of(store, name),
        store::trash_target(store.mailboxes) is None ==> forall|name: Seq<char>|
            !#[trigger] has_trash_role(store, name),
{
    assert forall|name: Seq<char>| #[trigger] has_trash_role(store, name) <==> store::is_trash(
        store.mailboxes,
        name,
    ) by {}
    if exists|name: Seq<char>| store::is_trash(store.mailboxes, name) {
        store::first_trash_exists(store.mailboxes);
        let name = store::trash_target(store.mailboxes)->0;
        assert(has_trash_role(store, name));
        assert forall|other: Seq<char>| #[trigger]
            has_trash_role(store, other) && other != name implies text::precedes(name, other) by {
            assert(store::is_trash(store.mailboxes, other));
        }
    } else {
        assert forall|name: Seq<char>| !#[trigger] has_trash_role(store, name) by {
            if has_trash_role(store, name) {
                assert(store::is_trash(store.mailboxes, name));
            }
        }
    }
}

/// Trashing moves exactly the message that was named into the mailbox with the
/// Trash role whose name comes first, and appends the event that says so. It is
/// refused, and nothing changes, exactly if there is no such message, no such
/// mailbox, or if the message lies there already, and the error says which.
pub proof fn trash_moves_into_the_trash(store: StoreModel, id: Seq<char>)
    requires
        store::valid(store),
    ensures
        ({
            let (after, answer) = store::after_trash(store, id);
            match answer {
                Ok(_) => {
                    let to = after.locations[id];
                    &&& store.locations.dom().contains(id)
                    &&& is_trash_of(store, to)
                    &&& store.locations[id] != to
                    &&& after.mailboxes == store.mailboxes
                    &&& after.locations == store.locations.insert(id, to)
                    &&& after.events == store.events.push(
                        EventModel::Trashed { message: id, from: store.locations[id], to },
                    )
                },
                Err(ErrorModel::MessageNotFound(m)) => after == store && m == id
                    && !store.locations.dom().contains(id),
                Err(ErrorModel::TrashMailboxMissing) => {
                    &&& after == store
                    &&& store.locations.dom().contains(id)
                    &&& forall|name: Seq<char>| !#[trigger] has_trash_role(store, name)
                },
                Err(ErrorModel::MessageAlreadyInTrash(m)) => {
                    &&& after == store
                    &&& m == id
                    &&& store.locations.dom().contains(id)
                    &&& is_trash_of(store, store.locations[id])
                },
                Err(_) => false,
            }
        }),
{
    target_is_the_trash(store);
}

/// Restoring moves exactly the message that was named into the mailbox that was
/// named, and appends the event that says so. It is refused, and nothing changes,
/// exactly if there is no such message, no such mailbox, or if that has the Trash
/// role, and the error says which.
pub proof fn restore_moves_to_the_destination(
    store: StoreModel,
    id: Seq<char>,
    destination: Seq<char>,
)
    ensures
        ({
            let (after, answer) = store::after_restore(store, id, destination);
            match answer {
                Ok(_) => {
                    &&& store.locations.dom().contains(id)
                    &&& store.mailboxes.dom().contains(destination)
                    &&& store.mailboxes[destination] != MailboxRole::Trash
                    &&& after.mailboxes == store.mailboxes
                    &&& after.locations == store.locations.insert(id, destination)
                    &&& after.events == store.events.push(
                        EventModel::Restored {
                            message: id,
                            from: store.locations[id],
                            to: destination,
                        },
                    )
                },
                Err(ErrorModel::MessageNotFound(m)) => after == store && m == id
                    && !store.locations.dom().contains(id),
                Err(ErrorModel::DestinationMissing(name)) => {
                    &&& after == store
                    &&& name == destination
                    &&& store.locations.dom().contains(id)
                    &&& !store.mailboxes.dom().contains(destination)
                },
                Err(ErrorModel::DestinationIsTrash(name)) => {
                    &&& after == store
                    &&& name == destination
                    &&& store.locations.dom().contains(id)
                    &&& has_trash_role(store, destination)
                },
                Err(_) => false,
            }
        }),
{
}

/// Adding a message puts exactly it into the mailbox that was named, and is
/// refused exactly if there is no such mailbox. Adding a mailbox gives exactly it
/// the role that was named.
pub proof fn adding_adds_what_was_named(
    store: StoreModel,
    mailbox: Seq<char>,
    id: Seq<char>,
    role: MailboxRole,
)
    ensures
        ({
            let (after, answer) = store::after_add_message(store, mailbox, id);
            if store.mailboxes.dom().contains(mailbox) {
                &&& answer is Ok
                &&& after.mailboxes == store.mailboxes
                &&& after.locations == store.locations.insert(id, mailbox)
                &&& after.events == store.events
            } else {
                after == store && answer == Err::<(), ErrorModel>(
                    ErrorModel::DestinationMissing(mailbox),
                )
            }
        }),
        ({
            let after = store::after_add_mailbox(store, mailbox, role);
            &&& after.mailboxes == store.mailboxes.insert(mailbox, role)
            &&& after.locations == store.locations
            &&& after.events == store.events
        }),
{
}

/// The models of events and errors hold what these hold.
pub proof fn models_hold_all_fields(
    events: Seq<MailEvent>,
    error: MailError,
    result: Result<(), MailError>,
)
    ensures
        store::event_models(events).len() == events.len(),
        forall|i: int|
            0 <= i < events.len() ==> {
                let model = store::event_models(events)[i];
                match #[trigger] events[i] {
                    MailEvent::Trashed { message, from, to } => model == (EventModel::Trashed {
                        message: message@,
                        from: from@,
                        to: to@,
                    }),
                    MailEvent::Restored { message, from, to } => model == (EventModel::Restored {
                        message: message@,
                        from: from@,
                        to: to@,
                    }),
                }
            },
        error matches MailError::MessageNotFound(id) ==> error@ == ErrorModel::MessageNotFound(id@),
        error is TrashMailboxMissing ==> error@ == ErrorModel::TrashMailboxMissing,
        error matches MailError::DestinationMissing(name) ==> error@
            == ErrorModel::DestinationMissing(name@),
        error matches MailError::DestinationIsTrash(name) ==> error@
            == ErrorModel::DestinationIsTrash(name@),
        error matches MailError::MessageAlreadyInTrash(id) ==> error@
            == ErrorModel::MessageAlreadyInTrash(id@),
        result is Ok ==> store::outcome(result) == Ok::<(), ErrorModel>(()),
        result matches Err(e) ==> store::outcome(result) == Err::<(), ErrorModel>(e@),
{
}

/// The sentence of a refusal names the message or the mailbox that it is about,
/// in full.
pub proof fn refusals_name_what_they_are_about(id: Seq<char>, name: Seq<char>, quote: Seq<char>)
    ensures
        store::error_sentence(ErrorModel::MessageNotFound(id), quote) == "message "@ + id
            + " was not found"@,
        store::error_sentence(ErrorModel::TrashMailboxMissing, quote)
            == "no mailbox with the Trash role exists"@,
        store::error_sentence(ErrorModel::DestinationMissing(name), quote) == "mailbox "@ + quote
            + " does not exist"@,
        store::error_sentence(ErrorModel::DestinationIsTrash(name), quote)
            == "cannot restore to Trash mailbox "@ + quote,
        store::error_sentence(ErrorModel::MessageAlreadyInTrash(id), quote) == "message "@ + id
            + " is already in Trash"@,
        store::named_mailbox(ErrorModel::DestinationMissing(name)) == name,
        store::named_mailbox(ErrorModel::DestinationIsTrash(name)) == name,
{
}

} // verus!
