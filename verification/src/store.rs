//! Mailboxes, the messages in them, and the two operations that move a message:
//! into the Trash and back out of it.

use vstd::prelude::*;

use crate::foundation;
use crate::name_map::NameMap;
use crate::text;

verus! {

/// A stable identifier supplied by a mail backend (for example an IMAP UID).
#[derive(Debug, Eq, Ord, PartialEq, PartialOrd)]
pub struct MessageId(String);

impl View for MessageId {
    type V = Seq<char>;

    closed spec fn view(&self) -> Seq<char> {
        self.0@
    }
}

impl MessageId {
    /// The identifier with the given text.
    pub fn new(value: &str) -> (id: Self)
        ensures
            id@ == value@,
    {
        MessageId(value.to_owned())
    }

    /// The text of the identifier.
    pub fn as_str(&self) -> (s: &str)
        ensures
            s@ == self@,
    {
        self.0.as_str()
    }
}

impl Clone for MessageId {
    fn clone(&self) -> (id: Self)
        ensures
            id@ == self@,
    {
        MessageId(self.0.clone())
    }
}

/// The special role of a mailbox as discovered from an IMAP server.
#[derive(Clone, Copy, Debug, Eq, PartialEq, Structural)]
pub enum MailboxRole {
    Inbox,
    Trash,
    Archive,
    Normal,
}

/// Events emitted by safe state transitions for audit and user interfaces.
#[derive(Clone, Debug, Eq, PartialEq)]
pub enum MailEvent {
    Trashed { message: MessageId, from: String, to: String },
    Restored { message: MessageId, from: String, to: String },
}

/// What an event says.
pub enum EventModel {
    Trashed { message: Seq<char>, from: Seq<char>, to: Seq<char> },
    Restored { message: Seq<char>, from: Seq<char>, to: Seq<char> },
}

impl View for MailEvent {
    type V = EventModel;

    open spec fn view(&self) -> EventModel {
        match self {
            MailEvent::Trashed { message, from, to } => EventModel::Trashed {
                message: message@,
                from: from@,
                to: to@,
            },
            MailEvent::Restored { message, from, to } => EventModel::Restored {
                message: message@,
                from: from@,
                to: to@,
            },
        }
    }
}

/// Why an operation was refused.
#[derive(Clone, Debug, Eq, PartialEq)]
pub enum MailError {
    MessageNotFound(MessageId),
    TrashMailboxMissing,
    DestinationMissing(String),
    DestinationIsTrash(String),
    MessageAlreadyInTrash(MessageId),
}

/// What a refusal says.
pub enum ErrorModel {
    MessageNotFound(Seq<char>),
    TrashMailboxMissing,
    DestinationMissing(Seq<char>),
    DestinationIsTrash(Seq<char>),
    MessageAlreadyInTrash(Seq<char>),
}

impl View for MailError {
    type V = ErrorModel;

    open spec fn view(&self) -> ErrorModel {
        match self {
            MailError::MessageNotFound(id) => ErrorModel::MessageNotFound(id@),
            MailError::TrashMailboxMissing => ErrorModel::TrashMailboxMissing,
            MailError::DestinationMissing(name) => ErrorModel::DestinationMissing(name@),
            MailError::DestinationIsTrash(name) => ErrorModel::DestinationIsTrash(name@),
            MailError::MessageAlreadyInTrash(id) => ErrorModel::MessageAlreadyInTrash(id@),
        }
    }
}

/// The sentence for a refusal. `quote` is the quoted form of the mailbox name
/// that the refusal carries, if it carries one.
pub open spec fn error_sentence(error: ErrorModel, quote: Seq<char>) -> Seq<char> {
    match error {
        ErrorModel::MessageNotFound(id) => "message "@ + id + " was not found"@,
        ErrorModel::TrashMailboxMissing => "no mailbox with the Trash role exists"@,
        ErrorModel::DestinationMissing(_) => "mailbox "@ + quote + " does not exist"@,
        ErrorModel::DestinationIsTrash(_) => "cannot restore to Trash mailbox "@ + quote,
        ErrorModel::MessageAlreadyInTrash(id) => "message "@ + id + " is already in Trash"@,
    }
}

/// The mailbox name that a refusal carries, or the empty text.
pub open spec fn named_mailbox(error: ErrorModel) -> Seq<char> {
    match error {
        ErrorModel::DestinationMissing(name) => name,
        ErrorModel::DestinationIsTrash(name) => name,
        _ => Seq::empty(),
    }
}

fn three(a: &str, b: &str, c: &str) -> (s: String)
    ensures
        s@ == a@ + b@ + c@,
{
    let mut s = a.to_owned();
    s.append(b);
    s.append(c);
    s
}

impl MailError {
    /// The sentence that tells a user about the refusal.
    pub fn describe(&self) -> (s: String)
        ensures
            s@ == error_sentence(self@, foundation::quoted(named_mailbox(self@))),
    {
        match self {
            MailError::DestinationMissing(name) => {
                let quote = foundation::quote_debug(name.as_str());
                self.describe_quoting(quote.as_str())
            },
            MailError::DestinationIsTrash(name) => {
                let quote = foundation::quote_debug(name.as_str());
                self.describe_quoting(quote.as_str())
            },
            _ => self.describe_quoting(""),
        }
    }

    /// The sentence that tells a user about the refusal, with the mailbox name
    /// in the quoted form that is given.
    pub fn describe_quoting(&self, quote: &str) -> (s: String)
        ensures
            s@ == error_sentence(self@, quote@),
    {
        match self {
            MailError::MessageNotFound(id) => three("message ", id.as_str(), " was not found"),
            MailError::TrashMailboxMissing => "no mailbox with the Trash role exists".to_owned(),
            MailError::DestinationMissing(_) => three("mailbox ", quote, " does not exist"),
            MailError::DestinationIsTrash(_) => {
                let mut s = "cannot restore to Trash mailbox ".to_owned();
                s.append(quote);
                s
            },
            MailError::MessageAlreadyInTrash(id) => three(
                "message ",
                id.as_str(),
                " is already in Trash",
            ),
        }
    }
}

// ---------------------------------------------------------------------------
// The model

/// What a store knows: the role of each mailbox, the one mailbox that holds
/// each message, and the moves made so far.
#[verifier::ext_equal]
pub struct StoreModel {
    pub mailboxes: Map<Seq<char>, MailboxRole>,
    pub locations: Map<Seq<char>, Seq<char>>,
    pub events: Seq<EventModel>,
}

/// What a result says.
pub open spec fn outcome(r: Result<(), MailError>) -> Result<(), ErrorModel> {
    match r {
        Ok(_) => Ok(()),
        Err(e) => Err(e@),
    }
}

/// What a sequence of events says.
pub open spec fn event_models(events: Seq<MailEvent>) -> Seq<EventModel> {
    Seq::new(events.len(), |i: int| events[i]@)
}

/// Whether a mailbox exists and has the Trash role.
pub open spec fn is_trash(mailboxes: Map<Seq<char>, MailboxRole>, name: Seq<char>) -> bool {
    mailboxes.dom().contains(name) && mailboxes[name] is Trash
}

/// Whether a mailbox is the first one, in the order of names, with the Trash
/// role.
pub open spec fn is_first_trash(mailboxes: Map<Seq<char>, MailboxRole>, name: Seq<char>) -> bool {
    &&& is_trash(mailboxes, name)
    &&& forall|other: Seq<char>| #[trigger]
        is_trash(mailboxes, other) ==> other == name || text::precedes(name, other)
}

/// The mailbox that trashed messages go to: the first with the Trash role, if
/// any mailbox has it.
pub open spec fn trash_target(mailboxes: Map<Seq<char>, MailboxRole>) -> Option<Seq<char>> {
    if exists|name: Seq<char>| is_trash(mailboxes, name) {
        Some(choose|name: Seq<char>| is_first_trash(mailboxes, name))
    } else {
        None
    }
}

/// The store after `id` was moved to the mailbox `to`, with the event appended.
pub open spec fn moved(
    store: StoreModel,
    id: Seq<char>,
    to: Seq<char>,
    event: EventModel,
) -> StoreModel {
    StoreModel {
        mailboxes: store.mailboxes,
        locations: store.locations.insert(id, to),
        events: store.events.push(event),
    }
}

/// What comes of a request to trash `id`: the store afterwards and the answer.
pub open spec fn after_trash(store: StoreModel, id: Seq<char>) -> (
    StoreModel,
    Result<(), ErrorModel>,
) {
    if !store.locations.dom().contains(id) {
        (store, Err(ErrorModel::MessageNotFound(id)))
    } else {
        let from = store.locations[id];
        match trash_target(store.mailboxes) {
            None => (store, Err(ErrorModel::TrashMailboxMissing)),
            Some(to) => if from == to {
                (store, Err(ErrorModel::MessageAlreadyInTrash(id)))
            } else {
                (moved(store, id, to, EventModel::Trashed { message: id, from, to }), Ok(()))
            },
        }
    }
}

/// What comes of a request to restore `id` to `destination`: the store
/// afterwards and the answer.
pub open spec fn after_restore(store: StoreModel, id: Seq<char>, destination: Seq<char>) -> (
    StoreModel,
    Result<(), ErrorModel>,
) {
    if !store.locations.dom().contains(id) {
        (store, Err(ErrorModel::MessageNotFound(id)))
    } else if !store.mailboxes.dom().contains(destination) {
        (store, Err(ErrorModel::DestinationMissing(destination)))
    } else if store.mailboxes[destination] is Trash {
        (store, Err(ErrorModel::DestinationIsTrash(destination)))
    } else {
        let from = store.locations[id];
        (
            moved(
                store,
                id,
                destination,
                EventModel::Restored { message: id, from, to: destination },
            ),
            Ok(()),
        )
    }
}

/// What comes of adding `id` to `mailbox`: the store afterwards and the answer.
pub open spec fn after_add_message(store: StoreModel, mailbox: Seq<char>, id: Seq<char>) -> (
    StoreModel,
    Result<(), ErrorModel>,
) {
    if !store.mailboxes.dom().contains(mailbox) {
        (store, Err(ErrorModel::DestinationMissing(mailbox)))
    } else {
        (StoreModel { locations: store.locations.insert(id, mailbox), ..store }, Ok(()))
    }
}

/// The store after a mailbox was added or its role changed.
pub open spec fn after_add_mailbox(
    store: StoreModel,
    name: Seq<char>,
    role: MailboxRole,
) -> StoreModel {
    StoreModel { mailboxes: store.mailboxes.insert(name, role), ..store }
}

// ---------------------------------------------------------------------------
// The store

/// The only mutating operations that applications and agents receive.
///
/// Whatever the backend, a refused request changes nothing. A granted one moves
/// the one message it names, into a mailbox with the Trash role or into an
/// existing one without it, and records the move.
pub trait MailStore {
    /// What the store knows.
    spec fn model(&self) -> StoreModel;

    fn trash(&mut self, message: &MessageId) -> (r: Result<(), MailError>)
        ensures
            r is Err ==> final(self).model() == old(self).model(),
            r is Ok ==> {
                let before = old(self).model();
                let from = before.locations[message@];
                &&& before.locations.dom().contains(message@)
                &&& exists|to: Seq<char>|
                    {
                        &&& #[trigger] is_trash(before.mailboxes, to)
                        &&& final(self).model() == moved(
                            before,
                            message@,
                            to,
                            EventModel::Trashed { message: message@, from, to },
                        )
                    }
            },
    ;

    fn restore(&mut self, message: &MessageId, destination: &str) -> (r: Result<(), MailError>)
        ensures
            r is Err ==> final(self).model() == old(self).model(),
            r is Ok ==> {
                let before = old(self).model();
                let from = before.locations[message@];
                &&& before.locations.dom().contains(message@)
                &&& before.mailboxes.dom().contains(destination@)
                &&& !is_trash(before.mailboxes, destination@)
                &&& final(self).model() == moved(
                    before,
                    message@,
                    destination@,
                    EventModel::Restored { message: message@, from, to: destination@ },
                )
            },
    ;

    fn events(&self) -> (events: &[MailEvent])
        ensures
            event_models(events@) == self.model().events,
    ;
}

/// What an in-memory store holds.
struct Contents {
    mailboxes: NameMap<MailboxRole>,
    locations: NameMap<String>,
    events: Vec<MailEvent>,
}

impl Contents {
    closed spec fn model(&self) -> StoreModel {
        StoreModel {
            mailboxes: self.mailboxes@,
            locations: Map::new(
                |id: Seq<char>| self.locations@.dom().contains(id),
                |id: Seq<char>| self.locations@[id]@,
            ),
            events: event_models(self.events@),
        }
    }

    fn empty() -> (contents: Self)
        ensures
            contents.model().mailboxes == Map::<Seq<char>, MailboxRole>::empty(),
            contents.model().locations == Map::<Seq<char>, Seq<char>>::empty(),
            contents.model().events == Seq::<EventModel>::empty(),
    {
        Contents { mailboxes: NameMap::new(), locations: NameMap::new(), events: Vec::new() }
    }

    fn place(&mut self, message: MessageId, mailbox: String)
        ensures
            final(self).model() == (StoreModel {
                locations: old(self).model().locations.insert(message@, mailbox@),
                ..old(self).model()
            }),
    {
        self.locations.insert(message.0, mailbox);
    }

    fn record(&mut self, event: MailEvent)
        ensures
            final(self).model() == (StoreModel {
                events: old(self).model().events.push(event@),
                ..old(self).model()
            }),
    {
        self.events.push(event);
    }
}

/// A deterministic reference implementation useful for tests and local
/// prototypes. What it knows is valid at all times.
pub struct InMemoryMailStore {
    contents: Contents,
}

impl Default for InMemoryMailStore {
    fn default() -> (store: Self)
        ensures
            store.model().mailboxes == Map::<Seq<char>, MailboxRole>::empty(),
            store.model().locations == Map::<Seq<char>, Seq<char>>::empty(),
            store.model().events == Seq::<EventModel>::empty(),
            valid(store.model()),
    {
        InMemoryMailStore { contents: Contents::empty() }
    }
}

impl InMemoryMailStore {
    #[verifier::type_invariant]
    spec fn is_valid(self) -> bool {
        valid(self.contents.model())
    }

    /// A store without mailboxes and messages.
    pub fn new() -> (store: Self)
        ensures
            store.model().mailboxes == Map::<Seq<char>, MailboxRole>::empty(),
            store.model().locations == Map::<Seq<char>, Seq<char>>::empty(),
            store.model().events == Seq::<EventModel>::empty(),
            valid(store.model()),
    {
        Self::default()
    }

    /// Adds a mailbox, or changes the role of one that exists.
    pub fn add_mailbox(&mut self, name: &str, role: MailboxRole)
        ensures
            final(self).model() == after_add_mailbox(old(self).model(), name@, role),
            valid(old(self).model()),
            valid(final(self).model()),
    {
        let ghost before = self.model();
        let mut contents = self.take();
        contents.mailboxes.insert(name.to_owned(), role);
        proof {
            operations_keep_validity(before, Seq::empty(), name@, role);
            assert(contents.model() == after_add_mailbox(before, name@, role));
        }
        self.contents = contents;
    }

    /// Puts a message into an existing mailbox.
    pub fn add_message(&mut self, mailbox: &str, message: MessageId) -> (r: Result<(), MailError>)
        ensures
            (final(self).model(), outcome(r)) == after_add_message(
                old(self).model(),
                mailbox@,
                message@,
            ),
            valid(old(self).model()),
            valid(final(self).model()),
    {
        proof {
            use_type_invariant(&*self);
        }
        if self.contents.mailboxes.get(mailbox).is_none() {
            return Err(MailError::DestinationMissing(mailbox.to_owned()));
        }
        let mut contents = self.take();
        contents.place(message, mailbox.to_owned());
        self.contents = contents;
        Ok(())
    }

    /// The mailbox that holds a message.
    pub fn mailbox_of(&self, message: &MessageId) -> (r: Option<&str>)
        ensures
            r is Some <==> self.model().locations.dom().contains(message@),
            r matches Some(name) ==> name@ == self.model().locations[message@],
            valid(self.model()),
    {
        proof {
            use_type_invariant(self);
        }
        match self.contents.locations.get(message.as_str()) {
            Some(name) => Some(name.as_str()),
            None => None,
        }
    }

    fn take(&mut self) -> (contents: Contents)
        ensures
            contents.model() == old(self).model(),
            valid(contents.model()),
    {
        proof {
            use_type_invariant(&*self);
        }
        let mut contents = Contents::empty();
        std::mem::swap(&mut contents, &mut self.contents);
        contents
    }

    fn trash_mailbox(&self) -> (r: Option<&str>)
        ensures
            r is Some <==> trash_target(self.model().mailboxes) is Some,
            r matches Some(name) ==> trash_target(self.model().mailboxes) == Some(name@),
            r matches Some(name) ==> is_trash(self.model().mailboxes, name@),
    {
        let ghost mailboxes = self.model().mailboxes;
        let ghost keys = self.contents.mailboxes.keys();
        let n: usize = self.contents.mailboxes.len();
        let mut i: usize = 0;
        while i < n
            invariant
                i <= n,
                n == keys.len(),
                keys == self.contents.mailboxes.keys(),
                mailboxes == self.contents.mailboxes@,
                mailboxes == self.model().mailboxes,
                self.contents.mailboxes.keys_in_order(),
                forall|j: int| 0 <= j < i ==> !is_trash(mailboxes, #[trigger] keys[j]),
            decreases n - i,
        {
            let (name, role) = self.contents.mailboxes.entry(i);
            if *role == MailboxRole::Trash {
                proof {
                    assert forall|other: Seq<char>| #[trigger]
                        is_trash(mailboxes, other) implies other == name@ || text::precedes(
                        name@,
                        other,
                    ) by {
                        assert(keys.contains(other));
                        let j = keys.index_of(other);
                        assert(keys[j] == other);
                        if i < j {
                            assert(text::precedes(keys[i as int], keys[j]));
                        }
                    }
                    assert(is_first_trash(mailboxes, name@));
                    first_trash_is_unique(mailboxes, name@);
                }
                return Some(name);
            }
            i += 1;
        }
        proof {
            assert forall|name: Seq<char>| !is_trash(mailboxes, name) by {
                if is_trash(mailboxes, name) {
                    assert(keys.contains(name));
                    assert(keys[keys.index_of(name)] == name);
                }
            }
        }
        None
    }
}

proof fn first_trash_is_unique(mailboxes: Map<Seq<char>, MailboxRole>, name: Seq<char>)
    requires
        is_first_trash(mailboxes, name),
    ensures
        trash_target(mailboxes) == Some(name),
{
    let other = choose|n: Seq<char>| is_first_trash(mailboxes, n);
    assert(is_first_trash(mailboxes, other));
    if other != name {
        assert(is_trash(mailboxes, other));
        assert(is_trash(mailboxes, name));
        text::precedes_transitive(name, other, name);
        text::precedes_irreflexive(name);
    }
}

impl MailStore for InMemoryMailStore {
    closed spec fn model(&self) -> StoreModel {
        self.contents.model()
    }

    fn trash(&mut self, message: &MessageId) -> (r: Result<(), MailError>)
        ensures
            (final(self).model(), outcome(r)) == after_trash(old(self).model(), message@),
            valid(old(self).model()),
            valid(final(self).model()),
    {
        proof {
            use_type_invariant(&*self);
            operations_keep_validity(
                self.model(),
                message@,
                Seq::empty(),
                MailboxRole::Normal,
            );
        }
        let from = match self.mailbox_of(message) {
            Some(name) => name.to_owned(),
            None => {
                return Err(MailError::MessageNotFound(message.clone()));
            },
        };
        let to = match self.trash_mailbox() {
            Some(name) => name.to_owned(),
            None => {
                return Err(MailError::TrashMailboxMissing);
            },
        };
        if from == to {
            return Err(MailError::MessageAlreadyInTrash(message.clone()));
        }
        let mut contents = self.take();
        contents.place(message.clone(), to.clone());
        contents.record(MailEvent::Trashed { message: message.clone(), from, to });
        self.contents = contents;
        Ok(())
    }

    fn restore(&mut self, message: &MessageId, destination: &str) -> (r: Result<(), MailError>)
        ensures
            (final(self).model(), outcome(r)) == after_restore(
                old(self).model(),
                message@,
                destination@,
            ),
            valid(old(self).model()),
            valid(final(self).model()),
    {
        proof {
            use_type_invariant(&*self);
        }
        let from = match self.mailbox_of(message) {
            Some(name) => name.to_owned(),
            None => {
                return Err(MailError::MessageNotFound(message.clone()));
            },
        };
        let role: MailboxRole = match self.contents.mailboxes.get(destination) {
            Some(role) => *role,
            None => {
                return Err(MailError::DestinationMissing(destination.to_owned()));
            },
        };
        if role == MailboxRole::Trash {
            return Err(MailError::DestinationIsTrash(destination.to_owned()));
        }
        let mut contents = self.take();
        contents.place(message.clone(), destination.to_owned());
        contents.record(
            MailEvent::Restored { message: message.clone(), from, to: destination.to_owned() },
        );
        self.contents = contents;
        Ok(())
    }

    fn events(&self) -> (events: &[MailEvent])
        ensures
            valid(self.model()),
    {
        proof {
            use_type_invariant(self);
        }
        self.contents.events.as_slice()
    }
}

// ---------------------------------------------------------------------------
// Laws

/// What holds of every store: it has finitely many mailboxes, and every message
/// lies in one that exists.
pub open spec fn valid(store: StoreModel) -> bool {
    &&& store.mailboxes.dom().finite()
    &&& forall|id: Seq<char>| #[trigger]
        store.locations.dom().contains(id) ==> store.mailboxes.dom().contains(store.locations[id])
}

/// The empty store is valid.
pub proof fn empty_store_is_valid(store: StoreModel)
    requires
        store.mailboxes == Map::<Seq<char>, MailboxRole>::empty(),
        store.locations == Map::<Seq<char>, Seq<char>>::empty(),
    ensures
        valid(store),
{
}

/// Every operation keeps a store valid.
pub proof fn operations_keep_validity(
    store: StoreModel,
    id: Seq<char>,
    mailbox: Seq<char>,
    role: MailboxRole,
)
    requires
        valid(store),
    ensures
        valid(after_add_mailbox(store, mailbox, role)),
        valid(after_add_message(store, mailbox, id).0),
        valid(after_trash(store, id).0),
        valid(after_restore(store, id, mailbox).0),
{
    if exists|name: Seq<char>| is_trash(store.mailboxes, name) {
        first_trash_exists(store.mailboxes);
    }
}

/// Among finitely many mailboxes of which one has the Trash role, one is the
/// first with it, and that is the target of trashed messages.
pub proof fn first_trash_exists(mailboxes: Map<Seq<char>, MailboxRole>)
    requires
        mailboxes.dom().finite(),
        exists|name: Seq<char>| is_trash(mailboxes, name),
    ensures
        trash_target(mailboxes) is Some,
        is_first_trash(mailboxes, trash_target(mailboxes)->0),
{
    let names = mailboxes.dom().filter(|name: Seq<char>| is_trash(mailboxes, name));
    let some = choose|name: Seq<char>| is_trash(mailboxes, name);
    assert(names.contains(some));
    let least = least_of(names);
    assert forall|other: Seq<char>| #[trigger] is_trash(mailboxes, other) implies other == least
        || text::precedes(least, other) by {
        assert(names.contains(other));
    }
    assert(is_trash(mailboxes, least));
    assert(is_first_trash(mailboxes, least));
}

proof fn least_of(names: Set<Seq<char>>) -> (least: Seq<char>)
    requires
        names.finite(),
        names.len() > 0,
    ensures
        names.contains(least),
        forall|other: Seq<char>| #[trigger]
            names.contains(other) ==> other == least || text::precedes(least, other),
    decreases names.len(),
{
    let one = names.choose();
    let rest = names.remove(one);
    if rest.len() == 0 {
        assert forall|other: Seq<char>| #[trigger] names.contains(other) implies other == one by {
            if other != one {
                assert(rest.contains(other));
            }
        }
        one
    } else {
        let other_least = least_of(rest);
        text::precedes_total(one, other_least);
        if text::precedes(one, other_least) {
            assert forall|other: Seq<char>| #[trigger] names.contains(other) implies other == one
                || text::precedes(one, other) by {
                if other != one {
                    assert(rest.contains(other));
                    if other != other_least {
                        text::precedes_transitive(one, other_least, other);
                    }
                }
            }
            one
        } else {
            assert forall|other: Seq<char>| #[trigger] names.contains(other) implies other
                == other_least || text::precedes(other_least, other) by {
                if other != one {
                    assert(rest.contains(other));
                }
            }
            other_least
        }
    }
}

/// A refused request changes nothing.
pub proof fn refusal_changes_nothing(store: StoreModel, id: Seq<char>, mailbox: Seq<char>)
    ensures
        after_trash(store, id).1 is Err ==> after_trash(store, id).0 == store,
        after_restore(store, id, mailbox).1 is Err ==> after_restore(store, id, mailbox).0
            == store,
        after_add_message(store, mailbox, id).1 is Err ==> after_add_message(store, mailbox, id).0
            == store,
{
}

/// No operation loses a message: trashing and restoring keep exactly the
/// messages there were, and adding one keeps all of them.
pub proof fn no_message_is_lost(
    store: StoreModel,
    id: Seq<char>,
    mailbox: Seq<char>,
    role: MailboxRole,
)
    ensures
        after_trash(store, id).0.locations.dom() == store.locations.dom(),
        after_restore(store, id, mailbox).0.locations.dom() == store.locations.dom(),
        after_add_mailbox(store, mailbox, role).locations == store.locations,
        store.locations.dom().subset_of(after_add_message(store, mailbox, id).0.locations.dom()),
{
    assert(after_trash(store, id).0.locations.dom() =~= store.locations.dom());
    assert(after_restore(store, id, mailbox).0.locations.dom() =~= store.locations.dom());
}

/// A request moves no message but the one that it names, and no request changes
/// the mailboxes.
pub proof fn other_messages_stay(
    store: StoreModel,
    id: Seq<char>,
    mailbox: Seq<char>,
    other: Seq<char>,
)
    requires
        other != id,
        store.locations.dom().contains(other),
    ensures
        after_trash(store, id).0.locations[other] == store.locations[other],
        after_restore(store, id, mailbox).0.locations[other] == store.locations[other],
        after_add_message(store, mailbox, id).0.locations[other] == store.locations[other],
        after_trash(store, id).0.mailboxes == store.mailboxes,
        after_restore(store, id, mailbox).0.mailboxes == store.mailboxes,
        after_add_message(store, mailbox, id).0.mailboxes == store.mailboxes,
{
}

/// A trashed message lies in a mailbox with the Trash role.
pub proof fn trashed_message_is_in_trash(store: StoreModel, id: Seq<char>)
    requires
        valid(store),
        after_trash(store, id).1 is Ok,
    ensures
        is_trash(store.mailboxes, after_trash(store, id).0.locations[id]),
{
    first_trash_exists(store.mailboxes);
}

/// Trashing a message of a valid store is refused exactly if there is no such
/// message, no mailbox with the Trash role, or if the message already lies in
/// the first of those.
pub proof fn when_trash_succeeds(store: StoreModel, id: Seq<char>)
    requires
        valid(store),
    ensures
        after_trash(store, id).1 is Ok <==> {
            &&& store.locations.dom().contains(id)
            &&& exists|name: Seq<char>|
                is_first_trash(store.mailboxes, name) && store.locations[id] != name
        },
{
    if exists|name: Seq<char>| is_trash(store.mailboxes, name) {
        first_trash_exists(store.mailboxes);
        let target = trash_target(store.mailboxes)->0;
        assert forall|name: Seq<char>| is_first_trash(store.mailboxes, name) implies name
            == target by {
            first_trash_is_unique(store.mailboxes, name);
        }
    }
}

/// A restored message lies in the destination, which does not have the Trash
/// role: restoring never targets the Trash.
pub proof fn restored_message_is_not_in_trash(
    store: StoreModel,
    id: Seq<char>,
    destination: Seq<char>,
)
    ensures
        after_restore(store, id, destination).1 is Ok ==> {
            &&& after_restore(store, id, destination).0.locations[id] == destination
            &&& !is_trash(store.mailboxes, destination)
        },
        is_trash(store.mailboxes, destination) ==> after_restore(store, id, destination).1 is Err,
{
}

/// Restoring a trashed message to the mailbox that it came from brings every
/// message back to where it was, unless that mailbox has the Trash role itself.
pub proof fn restore_undoes_trash(store: StoreModel, id: Seq<char>)
    requires
        valid(store),
        after_trash(store, id).1 is Ok,
        !is_trash(store.mailboxes, store.locations[id]),
    ensures
        ({
            let trashed = after_trash(store, id).0;
            let back = after_restore(trashed, id, store.locations[id]);
            &&& back.1 is Ok
            &&& back.0.locations == store.locations
            &&& back.0.mailboxes == store.mailboxes
        }),
{
    let trashed = after_trash(store, id).0;
    let back = after_restore(trashed, id, store.locations[id]);
    assert(back.0.locations =~= store.locations);
}

/// The record of moves is only ever appended to: a granted request adds the one
/// event that tells where the message was and where it is now, and a refused
/// one, or adding a mailbox or a message, adds none.
pub proof fn moves_are_audited(
    store: StoreModel,
    id: Seq<char>,
    mailbox: Seq<char>,
    role: MailboxRole,
)
    ensures
        after_trash(store, id).0.events == if after_trash(store, id).1 is Ok {
            store.events.push(
                EventModel::Trashed {
                    message: id,
                    from: store.locations[id],
                    to: after_trash(store, id).0.locations[id],
                },
            )
        } else {
            store.events
        },
        after_restore(store, id, mailbox).0.events == if after_restore(store, id, mailbox).1 is Ok {
            store.events.push(
                EventModel::Restored {
                    message: id,
                    from: store.locations[id],
                    to: after_restore(store, id, mailbox).0.locations[id],
                },
            )
        } else {
            store.events
        },
        after_add_message(store, mailbox, id).0.events == store.events,
        after_add_mailbox(store, mailbox, role).events == store.events,
{
}

} // verus!
