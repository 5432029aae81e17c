//! Reading mail over IMAP, without the connection.
//!
//! A [`MailReader`] decides what to ask a server and makes results of what the
//! server answered; a driver that owns the connection carries the requests and
//! the answers. What it asks for is a [`Command`]: `LIST`, `SELECT`, or
//! `UID FETCH` with a query of this module, which asks for bodies by
//! `BODY.PEEK[]` alone and for nothing else that sets `\Seen`. A synchronization
//! also negotiates QRESYNC, by `CAPABILITY` and `ENABLE QRESYNC`. No value of that type is an `EXPUNGE`, a flag change or a raw command.

use vstd::prelude::*;
use vstd::slice::slice_to_vec;
use vstd::utf8;

use crate::foundation;
use crate::text;

verus! {

/// The capability of synchronizing with one command.
pub const QRESYNC: &'static str = "QRESYNC";

/// The capability of enabling other capabilities.
pub const ENABLE: &'static str = "ENABLE";

/// The command that enables QRESYNC.
pub const ENABLE_QRESYNC: &'static str = "ENABLE QRESYNC";

/// The reference of a `LIST` command.
pub const LIST_REFERENCE: &'static str = "";

/// The pattern of a `LIST` command: every mailbox.
pub const LIST_PATTERN: &'static str = "*";

/// The query for UIDs alone.
pub const UIDS_QUERY: &'static str = "(UID)";

/// The query for one message.
pub const FETCH_QUERY: &'static str = "(UID FLAGS MODSEQ RFC822.SIZE BODY.PEEK[])";

// ---------------------------------------------------------------------------
// Messages

/// Where a message was fetched from.
#[derive(Clone, Debug, Eq, PartialEq)]
pub struct ImapSource {
    pub account: String,
    pub mailbox: String,
}

/// A message as the server returned it.
#[derive(Clone, Debug, Eq, PartialEq)]
pub struct FetchedMessage {
    pub uid: u32,
    pub source: ImapSource,
    pub rfc822: Vec<u8>,
    /// State returned by the server in the same fetch response.
    pub is_seen: bool,
    /// Server modification sequence, when CONDSTORE/QRESYNC returned one.
    pub mod_sequence: Option<u64>,
}

/// What a fetched message says.
#[verifier::ext_equal]
pub struct MessageModel {
    pub uid: u32,
    pub account: Seq<char>,
    pub mailbox: Seq<char>,
    pub rfc822: Seq<u8>,
    pub is_seen: bool,
    pub mod_sequence: Option<u64>,
}

impl View for FetchedMessage {
    type V = MessageModel;

    open spec fn view(&self) -> MessageModel {
        MessageModel {
            uid: self.uid,
            account: self.source.account@,
            mailbox: self.source.mailbox@,
            rfc822: self.rfc822@,
            is_seen: self.is_seen,
            mod_sequence: self.mod_sequence,
        }
    }
}

/// The URI of the messages of a mailbox, up to the UID.
pub open spec fn mailbox_uri_prefix(account: Seq<char>, mailbox: Seq<char>) -> Seq<char> {
    "imap://"@ + account + "/"@ + mailbox + ";uid="@
}

/// The URI of a message.
pub open spec fn message_uri(account: Seq<char>, mailbox: Seq<char>, uid: u32) -> Seq<char> {
    mailbox_uri_prefix(account, mailbox) + text::decimal(uid as nat)
}

/// The URI of the messages of a mailbox, up to the UID.
pub fn mailbox_uri(account: &str, mailbox: &str) -> (uri: String)
    ensures
        uri@ == mailbox_uri_prefix(account@, mailbox@),
{
    let mut uri = "imap://".to_owned();
    uri.append(account);
    uri.append("/");
    uri.append(mailbox);
    uri.append(";uid=");
    uri
}

/// The URI of a message.
pub fn uid_uri(account: &str, mailbox: &str, uid: u32) -> (uri: String)
    ensures
        uri@ == message_uri(account@, mailbox@, uid),
{
    let mut uri = mailbox_uri(account, mailbox);
    uri.append(text::decimal_string(uid as u64).as_str());
    uri
}

impl FetchedMessage {
    /// The URI of the message at its source.
    pub fn source_uri(&self) -> (uri: String)
        ensures
            uri@ == message_uri(self@.account, self@.mailbox, self@.uid),
    {
        uid_uri(self.source.account.as_str(), self.source.mailbox.as_str(), self.uid)
    }
}

// ---------------------------------------------------------------------------
// Authentication

/// Authentication mechanisms exposed by the safe client.
///
/// `XOAUTH2` is the widely deployed OAuth SASL variant used by Gmail and many
/// Exchange deployments. `OAUTHBEARER` is defined by RFC 7628.
#[derive(Clone, Copy, Debug, Eq, PartialEq, Structural)]
pub enum Authentication {
    Login,
    Plain,
    XOAuth2,
    OAuthBearer,
}

/// The response of a SASL client, the same to every challenge.
#[derive(Eq, PartialEq)]
pub struct SaslResponse(pub Vec<u8>);

/// The text of a `PLAIN` response.
pub open spec fn plain_text(username: Seq<char>, password: Seq<char>) -> Seq<char> {
    "\0"@ + username + "\0"@ + password
}

/// The text of an `XOAUTH2` response.
pub open spec fn xoauth2_text(username: Seq<char>, token: Seq<char>) -> Seq<char> {
    "user="@ + username + "\x01auth=Bearer "@ + token + "\x01\x01"@
}

/// The text of an `OAUTHBEARER` response.
pub open spec fn oauth_bearer_text(
    username: Seq<char>,
    token: Seq<char>,
    host: Seq<char>,
    port: u16,
) -> Seq<char> {
    "n,a="@ + username + ",\x01host="@ + host + "\x01port="@ + text::decimal(port as nat)
        + "\x01auth=Bearer "@ + token + "\x01\x01"@
}

impl SaslResponse {
    fn of_text(s: &str) -> (r: Self)
        ensures
            r.0@ == utf8::encode_utf8(s@),
    {
        SaslResponse(slice_to_vec(s.as_bytes()))
    }

    /// The `PLAIN` response for a password.
    pub fn plain(username: &str, password: &str) -> (r: Self)
        ensures
            r.0@ == utf8::encode_utf8(plain_text(username@, password@)),
    {
        let mut s = "\0".to_owned();
        s.append(username);
        s.append("\0");
        s.append(password);
        Self::of_text(s.as_str())
    }

    /// The `XOAUTH2` response for an access token.
    pub fn xoauth2(username: &str, token: &str) -> (r: Self)
        ensures
            r.0@ == utf8::encode_utf8(xoauth2_text(username@, token@)),
    {
        let mut s = "user=".to_owned();
        s.append(username);
        s.append("\x01auth=Bearer ");
        s.append(token);
        s.append("\x01\x01");
        Self::of_text(s.as_str())
    }

    /// The `OAUTHBEARER` response for an access token.
    pub fn oauth_bearer(username: &str, token: &str, host: &str, port: u16) -> (r: Self)
        ensures
            r.0@ == utf8::encode_utf8(oauth_bearer_text(username@, token@, host@, port)),
    {
        let mut s = "n,a=".to_owned();
        s.append(username);
        s.append(",\x01host=");
        s.append(host);
        s.append("\x01port=");
        s.append(text::decimal_string(port as u64).as_str());
        s.append("\x01auth=Bearer ");
        s.append(token);
        s.append("\x01\x01");
        Self::of_text(s.as_str())
    }

    /// The bytes to answer a challenge with.
    pub fn process(&self, _challenge: &[u8]) -> (r: Vec<u8>)
        ensures
            r@ == self.0@,
    {
        slice_to_vec(self.0.as_slice())
    }
}

/// How to authenticate on an established connection.
#[derive(Eq, PartialEq)]
pub enum Login {
    /// The `LOGIN` command.
    Password { username: String, password: String },
    /// The `AUTHENTICATE` command.
    Sasl { mechanism: String, response: SaslResponse },
}

/// What a login says.
pub enum LoginModel {
    Password { username: Seq<char>, password: Seq<char> },
    Sasl { mechanism: Seq<char>, response: Seq<u8> },
}

impl View for Login {
    type V = LoginModel;

    open spec fn view(&self) -> LoginModel {
        match self {
            Login::Password { username, password } => LoginModel::Password {
                username: username@,
                password: password@,
            },
            Login::Sasl { mechanism, response } => LoginModel::Sasl {
                mechanism: mechanism@,
                response: response.0@,
            },
        }
    }
}

/// How to open a session: connect to a host and port with implicit TLS by
/// Rustls, whatever the port, and then authenticate. No plan accepts an invalid
/// server certificate.
#[derive(Eq, PartialEq)]
pub struct ConnectPlan {
    host: String,
    port: u16,
    skip_tls_verify: bool,
    login: Login,
    account: String,
}

/// What a plan to connect says.
#[verifier::ext_equal]
pub struct ConnectModel {
    pub host: Seq<char>,
    pub port: u16,
    /// Whether an invalid server certificate is accepted.
    pub skip_tls_verify: bool,
    pub login: LoginModel,
    /// The account that the session will be logged in to.
    pub account: Seq<char>,
}

impl View for ConnectPlan {
    type V = ConnectModel;

    closed spec fn view(&self) -> ConnectModel {
        ConnectModel {
            host: self.host@,
            port: self.port,
            skip_tls_verify: self.skip_tls_verify,
            login: self.login@,
            account: self.account@,
        }
    }
}

/// The login that an authentication mechanism asks for. `secret` is a password
/// for `Login` and `Plain` and an OAuth access token for the others.
pub open spec fn login_for(
    authentication: Authentication,
    username: Seq<char>,
    secret: Seq<char>,
    host: Seq<char>,
    port: u16,
) -> LoginModel {
    match authentication {
        Authentication::Login => LoginModel::Password { username, password: secret },
        Authentication::Plain => LoginModel::Sasl {
            mechanism: "PLAIN"@,
            response: utf8::encode_utf8(plain_text(username, secret)),
        },
        Authentication::XOAuth2 => LoginModel::Sasl {
            mechanism: "XOAUTH2"@,
            response: utf8::encode_utf8(xoauth2_text(username, secret)),
        },
        Authentication::OAuthBearer => LoginModel::Sasl {
            mechanism: "OAUTHBEARER"@,
            response: utf8::encode_utf8(oauth_bearer_text(username, secret, host, port)),
        },
    }
}

/// The plan to connect.
pub open spec fn connect_plan(
    host: Seq<char>,
    port: u16,
    username: Seq<char>,
    secret: Seq<char>,
    authentication: Authentication,
) -> ConnectModel {
    ConnectModel {
        host,
        port,
        skip_tls_verify: false,
        login: login_for(authentication, username, secret, host, port),
        account: username,
    }
}

impl ConnectPlan {
    #[verifier::type_invariant]
    spec fn verifies_certificates(self) -> bool {
        !self.skip_tls_verify
    }

    /// The host to connect to.
    pub fn host(&self) -> (host: &str)
        ensures
            host@ == self@.host,
    {
        self.host.as_str()
    }

    /// The port to connect to.
    pub fn port(&self) -> (port: u16)
        ensures
            port == self@.port,
    {
        self.port
    }

    /// Whether an invalid server certificate is accepted: never, whatever the
    /// host, the port and the mechanism.
    pub fn skip_tls_verify(&self) -> (skip: bool)
        ensures
            skip == self@.skip_tls_verify,
            !skip,
    {
        proof {
            use_type_invariant(self);
        }
        self.skip_tls_verify
    }

    /// How to authenticate.
    pub fn login(&self) -> (login: &Login)
        ensures
            login@ == self@.login,
    {
        &self.login
    }

    /// The reader for the session, once it is open.
    pub fn established(self) -> (reader: MailReader)
        ensures
            reader@ == self@.account,
    {
        MailReader { account: self.account }
    }
}

// ---------------------------------------------------------------------------
// What a server answers

/// The capabilities that synchronization looks at.
#[derive(Clone, Copy, Debug, Eq, PartialEq)]
pub struct Capabilities {
    pub qresync: bool,
    pub enable: bool,
}

/// What a server reports of a mailbox that was selected.
#[derive(Clone, Copy, Debug, Eq, PartialEq)]
pub struct SelectedMailbox {
    pub uid_validity: Option<u32>,
    pub highest_mod_seq: Option<u64>,
}

/// A flag of a message.
#[derive(Clone, Copy, Debug, Eq, PartialEq, Structural)]
pub enum MessageFlag {
    Seen,
    Other,
}

/// One `FETCH` response.
#[derive(Debug, Eq, PartialEq)]
pub struct FetchItem {
    pub uid: Option<u32>,
    pub body: Option<Vec<u8>>,
    pub flags: Vec<MessageFlag>,
    pub mod_seq: Option<u64>,
}

/// A range of UIDs, both ends included; empty if `end` is below `start`.
#[derive(Clone, Copy, Debug, Eq, PartialEq)]
pub struct UidRange {
    pub start: u32,
    pub end: u32,
}

/// A response that the server sent beside its answer to a command.
#[derive(Debug, Eq, PartialEq)]
pub enum Unsolicited {
    Vanished(Vec<UidRange>),
    Other,
}

/// Why an answer could not be used.
#[derive(Debug, Eq, PartialEq)]
pub enum ReadError {
    MessageNotFound { uid: u32, mailbox: String },
    UidValidityMissing { mailbox: String },
    UidOmitted,
    BodyMissing { uid: u32 },
}

/// What a read error says.
pub enum ReadErrorModel {
    MessageNotFound { uid: u32, mailbox: Seq<char> },
    UidValidityMissing { mailbox: Seq<char> },
    UidOmitted,
    BodyMissing { uid: u32 },
}

impl View for ReadError {
    type V = ReadErrorModel;

    open spec fn view(&self) -> ReadErrorModel {
        match self {
            ReadError::MessageNotFound { uid, mailbox } => ReadErrorModel::MessageNotFound {
                uid: *uid,
                mailbox: mailbox@,
            },
            ReadError::UidValidityMissing { mailbox } => ReadErrorModel::UidValidityMissing {
                mailbox: mailbox@,
            },
            ReadError::UidOmitted => ReadErrorModel::UidOmitted,
            ReadError::BodyMissing { uid } => ReadErrorModel::BodyMissing { uid: *uid },
        }
    }
}

/// The sentence for a read error.
pub open spec fn read_error_sentence(error: ReadErrorModel) -> Seq<char> {
    match error {
        ReadErrorModel::MessageNotFound { uid, mailbox } => "UID "@ + text::decimal(uid as nat)
            + " was not found in "@ + mailbox,
        ReadErrorModel::UidValidityMissing { mailbox } => mailbox
            + " does not report UIDVALIDITY"@,
        ReadErrorModel::UidOmitted => "server omitted UID in UID FETCH response"@,
        ReadErrorModel::BodyMissing { uid } => "server did not return RFC 822 data for UID "@
            + text::decimal(uid as nat),
    }
}

impl ReadError {
    /// The sentence that tells a user about the error.
    pub fn describe(&self) -> (s: String)
        ensures
            s@ == read_error_sentence(self@),
    {
        match self {
            ReadError::MessageNotFound { uid, mailbox } => {
                let mut s = "UID ".to_owned();
                s.append(text::decimal_string(*uid as u64).as_str());
                s.append(" was not found in ");
                s.append(mailbox.as_str());
                s
            },
            ReadError::UidValidityMissing { mailbox } => {
                let mut s = mailbox.as_str().to_owned();
                s.append(" does not report UIDVALIDITY");
                s
            },
            ReadError::UidOmitted => "server omitted UID in UID FETCH response".to_owned(),
            ReadError::BodyMissing { uid } => {
                let mut s = "server did not return RFC 822 data for UID ".to_owned();
                s.append(text::decimal_string(*uid as u64).as_str());
                s
            },
        }
    }
}

/// What a result says.
pub open spec fn message_outcome(r: Result<FetchedMessage, ReadError>) -> Result<
    MessageModel,
    ReadErrorModel,
> {
    match r {
        Ok(message) => Ok(message@),
        Err(e) => Err(e@),
    }
}

/// What a sequence of messages says.
pub open spec fn message_models(messages: Seq<FetchedMessage>) -> Seq<MessageModel> {
    Seq::new(messages.len(), |i: int| messages[i]@)
}

/// The message in a `FETCH` response; there is none if the body is missing.
pub open spec fn message_in(
    account: Seq<char>,
    mailbox: Seq<char>,
    uid: u32,
    item: FetchItem,
) -> Result<MessageModel, ReadErrorModel> {
    match item.body {
        None => Err(ReadErrorModel::BodyMissing { uid }),
        Some(body) => Ok(
            MessageModel {
                uid,
                account,
                mailbox,
                rfc822: body@,
                is_seen: item.flags@.contains(MessageFlag::Seen),
                mod_sequence: item.mod_seq,
            },
        ),
    }
}

/// The messages in a sequence of `FETCH` responses. The first response that
/// lacks its UID or its body makes the whole an error.
pub open spec fn messages_in(
    account: Seq<char>,
    mailbox: Seq<char>,
    items: Seq<FetchItem>,
) -> Result<Seq<MessageModel>, ReadErrorModel>
    decreases items.len(),
{
    if items.len() == 0 {
        Ok(seq![])
    } else {
        match messages_in(account, mailbox, items.drop_last()) {
            Err(e) => Err(e),
            Ok(messages) => match items.last().uid {
                None => Err(ReadErrorModel::UidOmitted),
                Some(uid) => match message_in(account, mailbox, uid, items.last()) {
                    Err(e) => Err(e),
                    Ok(message) => Ok(messages.push(message)),
                },
            },
        }
    }
}

/// The greater of two modification sequences; an absent one is below all.
pub open spec fn later(a: Option<u64>, b: Option<u64>) -> Option<u64> {
    match (a, b) {
        (Some(x), Some(y)) => if x < y {
            b
        } else {
            a
        },
        (None, _) => b,
        (_, None) => a,
    }
}

/// The greatest modification sequence among `start` and those of the items.
pub open spec fn latest(start: Option<u64>, items: Seq<FetchItem>) -> Option<u64>
    decreases items.len(),
{
    if items.len() == 0 {
        start
    } else {
        later(latest(start, items.drop_last()), items.last().mod_seq)
    }
}

/// The UIDs of a range.
pub open spec fn range_uids(range: UidRange) -> Seq<u32> {
    if range.end < range.start {
        seq![]
    } else {
        Seq::new((range.end - range.start + 1) as nat, |i: int| (range.start + i) as u32)
    }
}

/// The UIDs of several ranges, one range after the other.
pub open spec fn ranges_uids(ranges: Seq<UidRange>) -> Seq<u32>
    decreases ranges.len(),
{
    if ranges.len() == 0 {
        seq![]
    } else {
        ranges_uids(ranges.drop_last()) + range_uids(ranges.last())
    }
}

/// The UIDs that the `VANISHED` responses among the given ones report.
pub open spec fn vanished_uids(responses: Seq<Unsolicited>) -> Seq<u32>
    decreases responses.len(),
{
    if responses.len() == 0 {
        seq![]
    } else {
        let before = vanished_uids(responses.drop_last());
        match responses.last() {
            Unsolicited::Vanished(ranges) => before + ranges_uids(ranges@),
            Unsolicited::Other => before,
        }
    }
}

// ---------------------------------------------------------------------------
// The reader

/// The reader of one account's mail, restricted to mailbox discovery and
/// message retrieval.
pub struct MailReader {
    account: String,
}

impl View for MailReader {
    type V = Seq<char>;

    /// The account.
    closed spec fn view(&self) -> Seq<char> {
        self.account@
    }
}

/// Whether a query is one of those that a reader makes.
pub open spec fn is_reader_query(query: Seq<char>) -> bool {
    query == FETCH_QUERY@ || query == UIDS_QUERY@ || exists|since: Option<u64>| query == #[trigger] sync_query(since)
}

/// A `UID FETCH` command. Only this module makes them, for one message, for the
/// UIDs of a mailbox or for a mailbox, and all of them only peek.
#[derive(Debug, Eq, PartialEq)]
pub struct FetchRequest {
    uid_set: String,
    query: String,
}

/// What a `UID FETCH` command says.
#[verifier::ext_equal]
pub struct FetchModel {
    pub uid_set: Seq<char>,
    pub query: Seq<char>,
}

impl View for FetchRequest {
    type V = FetchModel;

    closed spec fn view(&self) -> FetchModel {
        FetchModel { uid_set: self.uid_set@, query: self.query@ }
    }
}

/// The request for one message.
pub open spec fn message_request(uid: u32) -> FetchModel {
    FetchModel { uid_set: text::decimal(uid as nat), query: FETCH_QUERY@ }
}

/// The request for the UIDs of a mailbox.
pub open spec fn uids_request() -> FetchModel {
    FetchModel { uid_set: "1:*"@, query: UIDS_QUERY@ }
}

/// The request for a whole mailbox, or for its changes.
pub open spec fn mailbox_request(since: Option<u64>) -> FetchModel {
    FetchModel { uid_set: "1:*"@, query: sync_query(since) }
}

impl FetchRequest {
    #[verifier::type_invariant]
    spec fn is_made_by_a_reader(self) -> bool {
        is_reader_query(self.query@)
    }

    fn for_message(uid: u32) -> (request: Self)
        ensures
            request@ == message_request(uid),
    {
        FetchRequest {
            uid_set: text::decimal_string(uid as u64),
            query: FETCH_QUERY.to_owned(),
        }
    }

    fn for_uids() -> (request: Self)
        ensures
            request@ == uids_request(),
    {
        FetchRequest { uid_set: "1:*".to_owned(), query: UIDS_QUERY.to_owned() }
    }

    fn for_mailbox(since: Option<u64>) -> (request: Self)
        ensures
            request@ == mailbox_request(since),
    {
        let query = match since {
            Some(n) => {
                let mut q = "(UID FLAGS MODSEQ BODY.PEEK[]) (CHANGEDSINCE ".to_owned();
                q.append(text::decimal_string(n).as_str());
                q.append(" VANISHED)");
                q
            },
            None => "(UID FLAGS MODSEQ BODY.PEEK[])".to_owned(),
        };
        assert(query@ == sync_query(since));
        FetchRequest { uid_set: "1:*".to_owned(), query }
    }

    /// The UIDs to fetch.
    pub fn uid_set(&self) -> (uid_set: &str)
        ensures
            uid_set@ == self@.uid_set,
    {
        self.uid_set.as_str()
    }

    /// The data items to fetch, none of which sets `\Seen`.
    pub fn query(&self) -> (query: &str)
        ensures
            query@ == self@.query,
            is_reader_query(query@),
            only_peeks(query@),
    {
        proof {
            use_type_invariant(self);
            reader_queries_only_peek(self.query@);
        }
        self.query.as_str()
    }
}

/// A command that a reader has a driver send.
#[derive(Debug, Eq, PartialEq)]
pub enum Command {
    /// `CAPABILITY`
    Capability,
    /// `ENABLE QRESYNC`; a server may refuse it.
    EnableQresync,
    /// `LIST` with the reference and the pattern of this module.
    List,
    /// `SELECT`
    Select { mailbox: String },
    /// `UID FETCH`
    UidFetch(FetchRequest),
}

/// What a command says.
pub enum CommandModel {
    Capability,
    EnableQresync,
    List { reference: Seq<char>, pattern: Seq<char> },
    Select { mailbox: Seq<char> },
    UidFetch(FetchModel),
}

/// The `LIST` command.
pub open spec fn list_command() -> CommandModel {
    CommandModel::List { reference: LIST_REFERENCE@, pattern: LIST_PATTERN@ }
}

impl View for Command {
    type V = CommandModel;

    open spec fn view(&self) -> CommandModel {
        match self {
            Command::Capability => CommandModel::Capability,
            Command::EnableQresync => CommandModel::EnableQresync,
            Command::List => list_command(),
            Command::Select { mailbox } => CommandModel::Select { mailbox: mailbox@ },
            Command::UidFetch(request) => CommandModel::UidFetch(request@),
        }
    }
}

/// What a sequence of commands says.
pub open spec fn command_models(commands: Seq<Command>) -> Seq<CommandModel> {
    Seq::new(commands.len(), |i: int| commands[i]@)
}

fn one_command(command: Command) -> (commands: Vec<Command>)
    ensures
        command_models(commands@) == seq![command@],
{
    let mut commands: Vec<Command> = Vec::new();
    commands.push(command);
    assert(command_models(commands@) =~= seq![command@]);
    commands
}

fn two_commands(first: Command, second: Command) -> (commands: Vec<Command>)
    ensures
        command_models(commands@) == seq![first@, second@],
{
    let mut commands: Vec<Command> = Vec::new();
    commands.push(first);
    commands.push(second);
    assert(command_models(commands@) =~= seq![first@, second@]);
    commands
}

/// A mailbox that a server listed.
#[derive(Debug, Eq, PartialEq)]
pub struct ListedMailbox {
    pub name: String,
}

/// The discovery of mailboxes: send the commands, and hand the answer to
/// `names`.
#[derive(Debug, Eq, PartialEq)]
pub struct ListRun;

/// A search for the newest messages: send the commands, and hand the `FETCH`
/// responses to `newest`.
#[derive(Debug, Eq, PartialEq)]
pub struct RecentRun {
    pub mailbox: String,
    pub limit: usize,
}

/// The retrieval of one message: send the commands, and hand the `FETCH`
/// responses to `received`.
#[derive(Debug, Eq, PartialEq)]
pub struct FetchRun {
    pub account: String,
    pub mailbox: String,
    pub uid: u32,
}

/// The commands that discover mailboxes.
pub open spec fn list_commands() -> Seq<CommandModel> {
    seq![list_command()]
}

/// The commands that find the newest messages.
pub open spec fn recent_commands(mailbox: Seq<char>) -> Seq<CommandModel> {
    seq![CommandModel::Select { mailbox }, CommandModel::UidFetch(uids_request())]
}

/// The commands that retrieve one message.
pub open spec fn fetch_commands(mailbox: Seq<char>, uid: u32) -> Seq<CommandModel> {
    seq![CommandModel::Select { mailbox }, CommandModel::UidFetch(message_request(uid))]
}

impl ListRun {
    /// The commands to send.
    pub fn commands(&self) -> (commands: Vec<Command>)
        ensures
            command_models(commands@) == list_commands(),
    {
        one_command(Command::List)
    }

    /// The names of the listed mailboxes, as the server gave them.
    pub fn names(&self, listed: &Vec<ListedMailbox>) -> (names: Vec<String>)
        ensures
            text::texts(names@) == Seq::new(listed@.len(), |i: int| listed@[i].name@),
    {
        let mut names: Vec<String> = Vec::new();
        let mut i: usize = 0;
        while i < listed.len()
            invariant
                i <= listed@.len(),
                text::texts(names@) == Seq::new(i as nat, |j: int| listed@[j].name@),
            decreases listed.len() - i,
        {
            let ghost before = names@;
            names.push(listed[i].name.as_str().to_owned());
            assert(text::texts(names@) =~= text::texts(before).push(listed@[i as int].name@));
            i += 1;
        }
        names
    }
}

impl MailReader {
    /// How to establish a TLS connection with certificate validation and log
    /// in. The plan never accepts an invalid certificate.
    pub fn connect(host: &str, port: u16, username: &str, password: &str) -> (plan: ConnectPlan)
        ensures
            plan@ == connect_plan(
                host@,
                port,
                username@,
                password@,
                Authentication::Login,
            ),
    {
        Self::connect_with_auth(host, port, username, password, Authentication::Login)
    }

    /// How to establish a TLS connection and authenticate using the selected
    /// SASL mechanism. `secret` is a password for `Login`/`Plain` or an OAuth
    /// access token for `XOAuth2`/`OAuthBearer`.
    pub fn connect_with_auth(
        host: &str,
        port: u16,
        username: &str,
        secret: &str,
        authentication: Authentication,
    ) -> (plan: ConnectPlan)
        ensures
            plan@ == connect_plan(host@, port, username@, secret@, authentication),
    {
        Self::connect_inner(host, port, username, secret, authentication)
    }

    fn connect_inner(
        host: &str,
        port: u16,
        username: &str,
        secret: &str,
        authentication: Authentication,
    ) -> (plan: ConnectPlan)
        ensures
            plan@ == connect_plan(host@, port, username@, secret@, authentication),
    {
        let login = match authentication {
            Authentication::Login => Login::Password {
                username: username.to_owned(),
                password: secret.to_owned(),
            },
            Authentication::Plain => Login::Sasl {
                mechanism: "PLAIN".to_owned(),
                response: SaslResponse::plain(username, secret),
            },
            Authentication::XOAuth2 => Login::Sasl {
                mechanism: "XOAUTH2".to_owned(),
                response: SaslResponse::xoauth2(username, secret),
            },
            Authentication::OAuthBearer => Login::Sasl {
                mechanism: "OAUTHBEARER".to_owned(),
                response: SaslResponse::oauth_bearer(username, secret, host, port),
            },
        };
        ConnectPlan {
            host: host.to_owned(),
            port,
            skip_tls_verify: false,
            login,
            account: username.to_owned(),
        }
    }

    /// How to discover the server's mailbox names.
    pub fn list_mailboxes(&self) -> (run: ListRun)
        ensures
            run == ListRun,
    {
        ListRun
    }

    /// How to find the newest message UIDs in a mailbox.
    pub fn recent_uids(&self, mailbox: &str, limit: usize) -> (run: RecentRun)
        ensures
            run.mailbox@ == mailbox@,
            run.limit == limit,
    {
        RecentRun { mailbox: mailbox.to_owned(), limit }
    }

    /// How to fetch one RFC 822 message by UID without setting `\Seen`.
    pub fn fetch_message(&self, mailbox: &str, uid: u32) -> (run: FetchRun)
        ensures
            run.account@ == self@,
            run.mailbox@ == mailbox@,
            run.uid == uid,
    {
        FetchRun {
            account: self.account.as_str().to_owned(),
            mailbox: mailbox.to_owned(),
            uid,
        }
    }

    /// How to retrieve either a full mailbox or only the changes since a known
    /// IMAP modification sequence. When QRESYNC is enabled, vanished messages
    /// are returned along with changed messages in this one command.
    pub fn sync_mailbox(&self, mailbox: &str, previous: Option<MailboxState>) -> (run: SyncStart)
        ensures
            run.account@ == self@,
            run.mailbox@ == mailbox@,
            run.previous == previous,
    {
        SyncStart {
            account: self.account.as_str().to_owned(),
            mailbox: mailbox.to_owned(),
            previous,
        }
    }
}

/// The UIDs in a sequence of `FETCH` responses, each once. A response without a
/// UID does not answer a `UID FETCH`.
pub open spec fn uids_in(items: Seq<FetchItem>) -> Seq<u32>
    decreases items.len(),
{
    if items.len() == 0 {
        seq![]
    } else {
        let before = uids_in(items.drop_last());
        match items.last().uid {
            Some(uid) => if before.contains(uid) {
                before
            } else {
                before.push(uid)
            },
            None => before,
        }
    }
}

/// Whether one UID is at least as new as another.
pub open spec fn no_older() -> spec_fn(u32, u32) -> bool {
    |a: u32, b: u32| a >= b
}

/// The UIDs in descending order, no more than `limit` of them.
pub open spec fn newest_first(uids: Seq<u32>, limit: nat) -> Seq<u32> {
    let sorted = uids.sort_by(no_older());
    if limit <= sorted.len() {
        sorted.take(limit as int)
    } else {
        sorted
    }
}

proof fn no_older_is_total()
    ensures
        vstd::relations::total_ordering(no_older()),
{
}

impl RecentRun {
    /// The commands to send.
    pub fn commands(&self) -> (commands: Vec<Command>)
        ensures
            command_models(commands@) == recent_commands(self.mailbox@),
    {
        two_commands(
            Command::Select { mailbox: self.mailbox.as_str().to_owned() },
            Command::UidFetch(FetchRequest::for_uids()),
        )
    }

    /// The newest UIDs in the server's answer, newest first.
    pub fn newest(&self, items: &Vec<FetchItem>) -> (uids: Vec<u32>)
        ensures
            uids@ == newest_first(uids_in(items@), self.limit as nat),
    {
        let mut uids = descending_uids(items);
        if self.limit < uids.len() {
            uids.truncate(self.limit);
        }
        uids
    }
}

fn collect_uids(items: &Vec<FetchItem>) -> (uids: Vec<u32>)
    ensures
        forall|u: u32| uids@.contains(u) <==> #[trigger] uids_in(items@).contains(u),
{
    let mut uids: Vec<u32> = Vec::new();
    let mut i: usize = 0;
    assert(items@.take(0) == Seq::<FetchItem>::empty());
    while i < items.len()
        invariant
            i <= items@.len(),
            forall|u: u32|
                uids@.contains(u) <==> #[trigger] uids_in(items@.take(i as int)).contains(u),
        decreases items.len() - i,
    {
        let ghost before = uids@;
        let ghost found = uids_in(items@.take(i as int));
        proof {
            assert(items@.take(i + 1).drop_last() == items@.take(i as int));
            assert(items@.take(i + 1).last() == items@[i as int]);
        }
        if let Some(uid) = items[i].uid {
            uids.push(uid);
            proof {
                contains_after_push(before, uid);
                contains_after_push(found, uid);
            }
        }
        i += 1;
    }
    assert(items@.take(i as int) == items@);
    uids
}

proof fn contains_after_push(s: Seq<u32>, last: u32)
    ensures
        forall|u: u32| #[trigger] s.push(last).contains(u) <==> s.contains(u) || u == last,
{
    assert forall|u: u32| #[trigger] s.push(last).contains(u) <==> s.contains(u) || u == last by {
        if s.contains(u) {
            assert(s.push(last)[s.index_of(u)] == u);
        }
        if u == last {
            assert(s.push(last)[s.len() as int] == u);
        }
        if s.push(last).contains(u) && u != last {
            let i = s.push(last).index_of(u);
            assert(s[i] == u);
        }
    }
}

fn descending_uids(items: &Vec<FetchItem>) -> (uids: Vec<u32>)
    ensures
        uids@ == uids_in(items@).sort_by(no_older()),
{
    let mut ascending = collect_uids(items);
    let ghost all = ascending@;
    foundation::sort_ascending(&mut ascending);
    let ghost sorted = ascending@;
    let mut uids: Vec<u32> = Vec::new();
    let mut i: usize = ascending.len();
    while 0 < i
        invariant
            i <= ascending@.len(),
            sorted == ascending@,
            forall|a: int, b: int| 0 <= a <= b < sorted.len() ==> sorted[a] <= sorted[b],
            forall|a: int, b: int| 0 <= a < b < uids@.len() ==> uids@[a] > uids@[b],
            forall|u: u32| #[trigger] uids@.contains(u) ==> sorted.contains(u),
            forall|j: int| i <= j < sorted.len() ==> uids@.contains(#[trigger] sorted[j]),
            uids@.len() > 0 ==> i < sorted.len() && uids@.last() == sorted[i as int],
            uids@.len() == 0 ==> i == sorted.len(),
        decreases i,
    {
        i -= 1;
        let uid: u32 = ascending[i];
        let ghost before = uids@;
        if uids.len() == 0 || uids[uids.len() - 1] != uid {
            uids.push(uid);
            proof {
                contains_after_push(before, uid);
                assert(sorted.contains(sorted[i as int]));
                assert forall|a: int, b: int| 0 <= a < b < uids@.len() implies uids@[a]
                    > uids@[b] by {
                    if b == before.len() {
                        assert(before.last() == sorted[i + 1]);
                        assert(before[a] >= before.last());
                    }
                }
            }
        } else {
            assert(uids@[uids@.len() - 1] == uid);
            assert(uids@.contains(sorted[i as int]));
        }
    }
    proof {
        broadcast use vstd::seq_lib::group_to_multiset_ensures;

        let found = uids_in(items@);
        uids_are_distinct(items@);
        assert forall|u: u32| uids@.contains(u) <==> #[trigger] found.contains(u) by {
            if found.contains(u) {
                assert(all.contains(u));
                assert(all.to_multiset().count(u) > 0);
                assert(sorted.to_multiset().count(u) > 0);
                let j = sorted.index_of(u);
                assert(uids@.contains(sorted[j]));
            }
            if uids@.contains(u) {
                assert(sorted.to_multiset().count(u) > 0);
                assert(all.to_multiset().count(u) > 0);
            }
        }
        assert(uids@.no_duplicates());
        same_multiset(uids@, found);
        no_older_is_total();
        found.lemma_sort_by_ensures(no_older());
        assert(vstd::relations::sorted_by(uids@, no_older()));
        vstd::seq_lib::lemma_sorted_unique(uids@, found.sort_by(no_older()), no_older());
    }
    uids
}

proof fn same_multiset(a: Seq<u32>, b: Seq<u32>)
    requires
        a.no_duplicates(),
        b.no_duplicates(),
        forall|u: u32| a.contains(u) <==> #[trigger] b.contains(u),
    ensures
        a.to_multiset() == b.to_multiset(),
{
    broadcast use vstd::seq_lib::group_to_multiset_ensures;

    a.lemma_multiset_has_no_duplicates();
    b.lemma_multiset_has_no_duplicates();
    assert forall|u: u32| #[trigger]
        a.to_multiset().count(u) == b.to_multiset().count(u) by {
        assert(a.contains(u) <==> b.contains(u));
        assert(a.to_multiset().count(u) > 0 <==> a.contains(u));
        assert(b.to_multiset().count(u) > 0 <==> b.contains(u));
        if a.contains(u) {
            assert(a.to_multiset().contains(u));
            assert(b.to_multiset().contains(u));
        }
    }
    assert(a.to_multiset() =~= b.to_multiset());
}

/// No UID is found twice.
pub proof fn uids_are_distinct(items: Seq<FetchItem>)
    ensures
        uids_in(items).no_duplicates(),
    decreases items.len(),
{
    if items.len() > 0 {
        uids_are_distinct(items.drop_last());
        let before = uids_in(items.drop_last());
        let found = uids_in(items);
        assert forall|i: int, j: int|
            0 <= i < found.len() && 0 <= j < found.len() && i != j implies found[i] != found[j] by {
            if i < before.len() {
                assert(before.contains(before[i]));
            }
            if j < before.len() {
                assert(before.contains(before[j]));
            }
        }
    }
}

fn any_seen(flags: &Vec<MessageFlag>) -> (r: bool)
    ensures
        r == flags@.contains(MessageFlag::Seen),
{
    let mut i: usize = 0;
    while i < flags.len()
        invariant
            i <= flags.len(),
            forall|j: int| 0 <= j < i ==> flags@[j] != MessageFlag::Seen,
        decreases flags.len() - i,
    {
        if flags[i] == MessageFlag::Seen {
            return true;
        }
        i += 1;
    }
    false
}

/// The message in a `FETCH` response.
pub fn fetched_message(account: &str, mailbox: &str, uid: u32, item: &FetchItem) -> (r: Result<
    FetchedMessage,
    ReadError,
>)
    ensures
        message_outcome(r) == message_in(account@, mailbox@, uid, *item),
{
    match &item.body {
        None => Err(ReadError::BodyMissing { uid }),
        Some(body) => Ok(
            FetchedMessage {
                uid,
                source: ImapSource { account: account.to_owned(), mailbox: mailbox.to_owned() },
                rfc822: slice_to_vec(body.as_slice()),
                is_seen: any_seen(&item.flags),
                mod_sequence: item.mod_seq,
            },
        ),
    }
}

impl FetchRun {
    /// The commands to send.
    pub fn commands(&self) -> (commands: Vec<Command>)
        ensures
            command_models(commands@) == fetch_commands(self.mailbox@, self.uid),
    {
        two_commands(
            Command::Select { mailbox: self.mailbox.as_str().to_owned() },
            Command::UidFetch(FetchRequest::for_message(self.uid)),
        )
    }

    /// The message in the server's answer.
    pub fn received(&self, items: &Vec<FetchItem>) -> (r: Result<FetchedMessage, ReadError>)
        ensures
            items@.len() == 0 ==> message_outcome(r) == Err::<MessageModel, ReadErrorModel>(
                ReadErrorModel::MessageNotFound { uid: self.uid, mailbox: self.mailbox@ },
            ),
            items@.len() > 0 ==> message_outcome(r) == message_in(
                self.account@,
                self.mailbox@,
                self.uid,
                items@[0],
            ),
    {
        if items.len() == 0 {
            return Err(
                ReadError::MessageNotFound {
                    uid: self.uid,
                    mailbox: self.mailbox.as_str().to_owned(),
                },
            );
        }
        fetched_message(self.account.as_str(), self.mailbox.as_str(), self.uid, &items[0])
    }
}

// ---------------------------------------------------------------------------
// Synchronization

/// Mailbox state needed to make a subsequent QRESYNC request safe.
#[derive(Clone, Copy, Debug, Eq, PartialEq)]
pub struct MailboxState {
    pub uid_validity: u32,
    pub highest_mod_sequence: Option<u64>,
}

/// What a synchronization found.
#[derive(Clone, Debug)]
pub struct MailboxSync {
    pub state: MailboxState,
    pub changed: Vec<FetchedMessage>,
    pub vanished: Vec<u32>,
    pub used_qresync: bool,
    /// True when the result is a complete mailbox snapshot, not a delta.
    pub full_refresh: bool,
}

/// What a synchronization says.
#[verifier::ext_equal]
pub struct SyncModel {
    pub state: MailboxState,
    pub changed: Seq<MessageModel>,
    pub vanished: Seq<u32>,
    pub used_qresync: bool,
    pub full_refresh: bool,
}

impl View for MailboxSync {
    type V = SyncModel;

    open spec fn view(&self) -> SyncModel {
        SyncModel {
            state: self.state,
            changed: message_models(self.changed@),
            vanished: self.vanished@,
            used_qresync: self.used_qresync,
            full_refresh: self.full_refresh,
        }
    }
}

/// The first stage of a synchronization: send the commands, and hand the
/// server's capabilities to `capabilities`.
#[derive(Debug, Eq, PartialEq)]
pub struct SyncStart {
    pub account: String,
    pub mailbox: String,
    pub previous: Option<MailboxState>,
}

/// The second stage: send the commands, and hand the answers to `selected`.
/// `ENABLE QRESYNC` is among the commands if `enable_qresync` says so.
#[derive(Debug, Eq, PartialEq)]
pub struct SyncSelect {
    pub account: String,
    pub mailbox: String,
    pub previous: Option<MailboxState>,
    pub enable_qresync: bool,
}

/// The third stage: send the commands, and hand the `FETCH` responses to
/// `fetched`.
#[derive(Debug, Eq, PartialEq)]
pub struct SyncFetch {
    pub account: String,
    pub mailbox: String,
    pub current: MailboxState,
    /// The modification sequence that changes are asked for since, if the
    /// request is for changes alone.
    pub since: Option<u64>,
}

/// The last stage: take the unsolicited responses if `used_qresync` says so,
/// and hand them to `finish`.
#[derive(Debug, Eq, PartialEq)]
pub struct SyncCollect {
    pub state: MailboxState,
    pub changed: Vec<FetchedMessage>,
    pub used_qresync: bool,
}

/// Whether to enable QRESYNC: the server offers it, and an earlier
/// synchronization left a modification sequence to start from.
pub open spec fn wants_qresync(
    capabilities: Capabilities,
    previous: Option<MailboxState>,
) -> bool {
    &&& capabilities.qresync
    &&& capabilities.enable
    &&& previous is Some
    &&& previous->0.highest_mod_sequence is Some
}

/// The modification sequence to ask for changes since: the earlier one, if
/// QRESYNC is enabled and the UIDs still mean what they meant then.
pub open spec fn changes_since(
    qresync_enabled: bool,
    previous: Option<MailboxState>,
    uid_validity: u32,
) -> Option<u64> {
    if qresync_enabled && previous is Some && previous->0.uid_validity == uid_validity {
        previous->0.highest_mod_sequence
    } else {
        None
    }
}

/// The query for a whole mailbox, or for its changes.
pub open spec fn sync_query(since: Option<u64>) -> Seq<char> {
    match since {
        None => "(UID FLAGS MODSEQ BODY.PEEK[])"@,
        Some(n) => "(UID FLAGS MODSEQ BODY.PEEK[]) (CHANGEDSINCE "@ + text::decimal(n as nat)
            + " VANISHED)"@,
    }
}

/// The commands of the first stage.
pub open spec fn start_commands() -> Seq<CommandModel> {
    seq![CommandModel::Capability]
}

/// The commands of the second stage.
pub open spec fn select_commands(mailbox: Seq<char>, enable_qresync: bool) -> Seq<CommandModel> {
    if enable_qresync {
        seq![CommandModel::EnableQresync, CommandModel::Select { mailbox }]
    } else {
        seq![CommandModel::Select { mailbox }]
    }
}

/// The commands of the third stage.
pub open spec fn mailbox_commands(since: Option<u64>) -> Seq<CommandModel> {
    seq![CommandModel::UidFetch(mailbox_request(since))]
}

impl SyncStart {
    /// The commands to send.
    pub fn commands(&self) -> (commands: Vec<Command>)
        ensures
            command_models(commands@) == start_commands(),
    {
        one_command(Command::Capability)
    }

    /// Goes on with the server's capabilities.
    pub fn capabilities(self, capabilities: Capabilities) -> (next: SyncSelect)
        ensures
            next.account@ == self.account@,
            next.mailbox@ == self.mailbox@,
            next.previous == self.previous,
            next.enable_qresync == wants_qresync(capabilities, self.previous),
    {
        let earlier: Option<u64> = match self.previous {
            Some(state) => state.highest_mod_sequence,
            None => None,
        };
        let enable_qresync: bool = capabilities.qresync && capabilities.enable
            && earlier.is_some();
        SyncSelect {
            account: self.account,
            mailbox: self.mailbox,
            previous: self.previous,
            enable_qresync,
        }
    }
}

impl SyncSelect {
    /// The commands to send.
    pub fn commands(&self) -> (commands: Vec<Command>)
        ensures
            command_models(commands@) == select_commands(self.mailbox@, self.enable_qresync),
    {
        let select = Command::Select { mailbox: self.mailbox.as_str().to_owned() };
        if self.enable_qresync {
            two_commands(Command::EnableQresync, select)
        } else {
            one_command(select)
        }
    }

    /// Goes on with the selected mailbox. `enabled` tells whether the server
    /// granted `ENABLE QRESYNC`; it does not matter if that was not sent.
    pub fn selected(self, enabled: bool, selected: SelectedMailbox) -> (r: Result<
        SyncFetch,
        ReadError,
    >)
        ensures
            selected.uid_validity is None <==> r is Err,
            r matches Err(e) ==> e@ == (ReadErrorModel::UidValidityMissing {
                mailbox: self.mailbox@,
            }),
            r matches Ok(next) ==> {
                &&& next.account@ == self.account@
                &&& next.mailbox@ == self.mailbox@
                &&& next.current.uid_validity == selected.uid_validity->0
                &&& next.current.highest_mod_sequence == selected.highest_mod_seq
                &&& next.since == changes_since(
                    self.enable_qresync && enabled,
                    self.previous,
                    selected.uid_validity->0,
                )
            },
    {
        let uid_validity: u32 = match selected.uid_validity {
            Some(v) => v,
            None => {
                return Err(ReadError::UidValidityMissing { mailbox: self.mailbox });
            },
        };
        let current = MailboxState {
            uid_validity,
            highest_mod_sequence: selected.highest_mod_seq,
        };
        let since: Option<u64> = match self.previous {
            Some(state) => if self.enable_qresync && enabled && state.uid_validity
                == uid_validity {
                state.highest_mod_sequence
            } else {
                None
            },
            None => None,
        };
        Ok(
            SyncFetch {
                account: self.account,
                mailbox: self.mailbox,
                current,
                since,
            },
        )
    }
}

fn later_of(a: Option<u64>, b: Option<u64>) -> (r: Option<u64>)
    ensures
        r == later(a, b),
{
    match a {
        None => b,
        Some(x) => match b {
            None => a,
            Some(y) => if x < y {
                b
            } else {
                a
            },
        },
    }
}

impl SyncFetch {
    /// The commands to send.
    pub fn commands(&self) -> (commands: Vec<Command>)
        ensures
            command_models(commands@) == mailbox_commands(self.since),
    {
        one_command(Command::UidFetch(FetchRequest::for_mailbox(self.since)))
    }

    /// Goes on with the `FETCH` responses.
    pub fn fetched(self, items: &Vec<FetchItem>) -> (r: Result<SyncCollect, ReadError>)
        ensures
            match (r, messages_in(self.account@, self.mailbox@, items@)) {
                (Ok(next), Ok(messages)) => {
                    &&& message_models(next.changed@) == messages
                    &&& next.state.uid_validity == self.current.uid_validity
                    &&& next.state.highest_mod_sequence == latest(
                        self.current.highest_mod_sequence,
                        items@,
                    )
                    &&& next.used_qresync == self.since is Some
                },
                (Err(e), Err(model)) => e@ == model,
                _ => false,
            },
    {
        let mut changed: Vec<FetchedMessage> = Vec::new();
        let mut highest: Option<u64> = self.current.highest_mod_sequence;
        let mut i: usize = 0;
        assert(items@.take(0) == Seq::<FetchItem>::empty());
        assert(message_models(changed@) == Seq::<MessageModel>::empty());
        while i < items.len()
            invariant
                i <= items.len(),
                messages_in(self.account@, self.mailbox@, items@.take(i as int)) == Ok::<
                    Seq<MessageModel>,
                    ReadErrorModel,
                >(message_models(changed@)),
                highest == latest(self.current.highest_mod_sequence, items@.take(i as int)),
            decreases items.len() - i,
        {
            let item = &items[i];
            let ghost before = changed@;
            proof {
                assert(items@.take(i + 1).drop_last() == items@.take(i as int));
                assert(items@.take(i + 1).last() == *item);
            }
            let uid: u32 = match item.uid {
                Some(uid) => uid,
                None => {
                    proof {
                        error_prevails(self.account@, self.mailbox@, items@, i + 1);
                    }
                    return Err(ReadError::UidOmitted);
                },
            };
            highest = later_of(highest, item.mod_seq);
            match fetched_message(self.account.as_str(), self.mailbox.as_str(), uid, item) {
                Ok(message) => {
                    changed.push(message);
                    assert(message_models(changed@) == message_models(before).push(message@));
                },
                Err(e) => {
                    proof {
                        error_prevails(self.account@, self.mailbox@, items@, i + 1);
                    }
                    return Err(e);
                },
            }
            i += 1;
        }
        assert(items@.take(i as int) == items@);
        Ok(
            SyncCollect {
                state: MailboxState {
                    uid_validity: self.current.uid_validity,
                    highest_mod_sequence: highest,
                },
                changed,
                used_qresync: self.since.is_some(),
            },
        )
    }
}

/// An error in a beginning of the responses is the error of all of them.
proof fn error_prevails(account: Seq<char>, mailbox: Seq<char>, items: Seq<FetchItem>, i: int)
    requires
        0 <= i <= items.len(),
        messages_in(account, mailbox, items.take(i)) is Err,
    ensures
        messages_in(account, mailbox, items) == messages_in(account, mailbox, items.take(i)),
    decreases items.len(),
{
    if i == items.len() {
        assert(items.take(i) == items);
    } else {
        assert(items.drop_last().take(i) == items.take(i));
        error_prevails(account, mailbox, items.drop_last(), i);
    }
}

fn push_range(uids: &mut Vec<u32>, range: UidRange)
    ensures
        final(uids)@ == old(uids)@ + range_uids(range),
{
    if range.end < range.start {
        assert(uids@ + range_uids(range) == uids@);
        return;
    }
    let ghost before = uids@;
    let mut uid: u32 = range.start;
    uids.push(uid);
    while uid < range.end
        invariant
            range.start <= uid <= range.end,
            uids@ == before + range_uids(UidRange { start: range.start, end: uid }),
        decreases range.end - uid,
    {
        uid += 1;
        uids.push(uid);
    }
}

fn expand(responses: &Vec<Unsolicited>) -> (uids: Vec<u32>)
    ensures
        uids@ == vanished_uids(responses@),
{
    let mut uids: Vec<u32> = Vec::new();
    let mut i: usize = 0;
    assert(responses@.take(0) == Seq::<Unsolicited>::empty());
    while i < responses.len()
        invariant
            i <= responses.len(),
            uids@ == vanished_uids(responses@.take(i as int)),
        decreases responses.len() - i,
    {
        proof {
            assert(responses@.take(i + 1).drop_last() == responses@.take(i as int));
        }
        if let Unsolicited::Vanished(ranges) = &responses[i] {
            let ghost before = uids@;
            let mut j: usize = 0;
            assert(ranges@.take(0) == Seq::<UidRange>::empty());
            assert(uids@ == before + ranges_uids(ranges@.take(0)));
            while j < ranges.len()
                invariant
                    j <= ranges.len(),
                    uids@ == before + ranges_uids(ranges@.take(j as int)),
                decreases ranges.len() - j,
            {
                push_range(&mut uids, ranges[j]);
                j += 1;
                proof {
                    assert(ranges@.take(j as int).drop_last() == ranges@.take(j - 1));
                    assert(uids@ == before + ranges_uids(ranges@.take(j as int)));
                }
            }
            assert(ranges@.take(j as int) == ranges@);
        }
        i += 1;
    }
    assert(responses@.take(i as int) == responses@);
    uids
}

impl SyncCollect {
    /// Ends the synchronization. The unsolicited responses do not matter unless
    /// QRESYNC was used.
    pub fn finish(self, responses: &Vec<Unsolicited>) -> (sync: MailboxSync)
        ensures
            sync@ == (SyncModel {
                state: self.state,
                changed: message_models(self.changed@),
                vanished: if self.used_qresync {
                    vanished_uids(responses@)
                } else {
                    seq![]
                },
                used_qresync: self.used_qresync,
                full_refresh: !self.used_qresync,
            }),
    {
        let vanished: Vec<u32> = if self.used_qresync {
            expand(responses)
        } else {
            Vec::new()
        };
        MailboxSync {
            state: self.state,
            changed: self.changed,
            vanished,
            used_qresync: self.used_qresync,
            full_refresh: !self.used_qresync,
        }
    }
}

/// Everything that a server answered during one synchronization.
#[derive(Debug, Eq, PartialEq)]
pub struct SyncAnswers {
    pub capabilities: Capabilities,
    /// Whether `ENABLE QRESYNC` was granted; it does not matter if it was not
    /// sent.
    pub enabled: bool,
    pub selected: SelectedMailbox,
    pub items: Vec<FetchItem>,
    pub unsolicited: Vec<Unsolicited>,
}

/// What a synchronization makes of the server's answers.
pub open spec fn synchronized(
    account: Seq<char>,
    mailbox: Seq<char>,
    previous: Option<MailboxState>,
    answers: SyncAnswers,
) -> Result<SyncModel, ReadErrorModel> {
    match answers.selected.uid_validity {
        None => Err(ReadErrorModel::UidValidityMissing { mailbox }),
        Some(uid_validity) => {
            let since = changes_since(
                wants_qresync(answers.capabilities, previous) && answers.enabled,
                previous,
                uid_validity,
            );
            match messages_in(account, mailbox, answers.items@) {
                Err(e) => Err(e),
                Ok(changed) => Ok(
                    SyncModel {
                        state: MailboxState {
                            uid_validity,
                            highest_mod_sequence: latest(
                                answers.selected.highest_mod_seq,
                                answers.items@,
                            ),
                        },
                        changed,
                        vanished: if since is Some {
                            vanished_uids(answers.unsolicited@)
                        } else {
                            seq![]
                        },
                        used_qresync: since is Some,
                        full_refresh: since is None,
                    },
                ),
            }
        },
    }
}

impl MailReader {
    /// A synchronization on answers that are already at hand, such as recorded
    /// ones: the stages that `sync_mailbox` begins, one after the other.
    pub fn sync_recorded(
        &self,
        mailbox: &str,
        previous: Option<MailboxState>,
        answers: &SyncAnswers,
    ) -> (r: Result<MailboxSync, ReadError>)
        ensures
            match (r, synchronized(self@, mailbox@, previous, *answers)) {
                (Ok(sync), Ok(model)) => sync@ == model,
                (Err(e), Err(model)) => e@ == model,
                _ => false,
            },
    {
        let select = self.sync_mailbox(mailbox, previous).capabilities(answers.capabilities);
        let fetch = match select.selected(answers.enabled, answers.selected) {
            Ok(fetch) => fetch,
            Err(e) => {
                return Err(e);
            },
        };
        match fetch.fetched(&answers.items) {
            Ok(collect) => Ok(collect.finish(&answers.unsolicited)),
            Err(e) => Err(e),
        }
    }
}

// ---------------------------------------------------------------------------
// Laws

/// Whether a query asks for the body of a message.
pub open spec fn asks_for_body(query: Seq<char>) -> bool {
    exists|i: int|
        0 <= i < query.len() && text::has_prefix(#[trigger] query.skip(i), "BODY.PEEK[]"@)
}

/// Whether a query asks for nothing that makes the server set `\Seen`: every
/// mention of a body is one of `BODY.PEEK[]`, and every mention of RFC822 is one
/// of `RFC822.SIZE`.
pub open spec fn only_peeks(query: Seq<char>) -> bool {
    &&& forall|i: int|
        0 <= i < query.len() && text::has_prefix(#[trigger] query.skip(i), "BODY"@)
            ==> text::has_prefix(query.skip(i), "BODY.PEEK[]"@)
    &&& forall|i: int|
        0 <= i < query.len() && text::has_prefix(#[trigger] query.skip(i), "RFC822"@)
            ==> text::has_prefix(query.skip(i), "RFC822.SIZE"@)
}

/// No query of a synchronization sets `\Seen`.
pub proof fn sync_only_peeks(since: Option<u64>)
    ensures
        only_peeks(sync_query(since)),
        asks_for_body(sync_query(since)),
{
    reveal_strlit("(UID FLAGS MODSEQ BODY.PEEK[])");
    reveal_strlit("(UID FLAGS MODSEQ BODY.PEEK[]) (CHANGEDSINCE ");
    reveal_strlit(" VANISHED)");
    reveal_strlit("BODY.PEEK[]");
    reveal_strlit("BODY");
    reveal_strlit("RFC822");
    let q = sync_query(since);
    if since is Some {
        text::decimal_is_digits(since->0 as nat);
    }
    assert(q.skip(18).take(11) =~= "BODY.PEEK[]"@);
    assert forall|i: int|
        0 <= i < q.len() && text::has_prefix(#[trigger] q.skip(i), "BODY"@) implies text::has_prefix(
        q.skip(i),
        "BODY.PEEK[]"@,
    ) by {
        assert(q.skip(i).take(4)[0] == 'B');
        assert(q[i] == 'B');
        assert(i == 18);
    }
    assert forall|i: int|
        0 <= i < q.len() && text::has_prefix(#[trigger] q.skip(i), "RFC822"@) implies false by {
        assert(q.skip(i).take(6)[0] == 'R');
        assert(q[i] == 'R');
    }
}

/// Fetching a message does not set `\Seen`.
pub proof fn fetch_only_peeks()
    ensures
        only_peeks(FETCH_QUERY@),
        asks_for_body(FETCH_QUERY@),
{
    reveal_strlit("(UID FLAGS MODSEQ RFC822.SIZE BODY.PEEK[])");
    reveal_strlit("BODY.PEEK[]");
    reveal_strlit("BODY");
    reveal_strlit("RFC822");
    reveal_strlit("RFC822.SIZE");
    let q = FETCH_QUERY@;
    assert(q.skip(30).take(11) =~= "BODY.PEEK[]"@);
    assert(q.skip(18).take(11) =~= "RFC822.SIZE"@);
    assert forall|i: int|
        0 <= i < q.len() && text::has_prefix(#[trigger] q.skip(i), "BODY"@) implies text::has_prefix(
        q.skip(i),
        "BODY.PEEK[]"@,
    ) by {
        assert(q.skip(i).take(4)[0] == 'B');
        assert(q[i] == 'B');
        assert(i == 30);
    }
    assert forall|i: int|
        0 <= i < q.len() && text::has_prefix(#[trigger] q.skip(i), "RFC822"@) implies text::has_prefix(
        q.skip(i),
        "RFC822.SIZE"@,
    ) by {
        assert(q.skip(i).take(6)[0] == 'R');
        assert(q[i] == 'R');
        assert(i == 18);
    }
}

/// Asking for UIDs does not set `\Seen`.
pub proof fn uids_only_peek()
    ensures
        only_peeks(UIDS_QUERY@),
{
    reveal_strlit("(UID)");
    reveal_strlit("BODY");
    reveal_strlit("RFC822");
    let q = UIDS_QUERY@;
    assert forall|i: int|
        0 <= i < q.len() && text::has_prefix(#[trigger] q.skip(i), "BODY"@) implies false by {
        assert(q.skip(i).take(4)[0] == 'B');
        assert(q[i] == 'B');
    }
    assert forall|i: int|
        0 <= i < q.len() && text::has_prefix(#[trigger] q.skip(i), "RFC822"@) implies false by {
        assert(q.skip(i).take(6)[0] == 'R');
        assert(q[i] == 'R');
    }
}

proof fn reader_queries_only_peek(query: Seq<char>)
    requires
        is_reader_query(query),
    ensures
        only_peeks(query),
{
    if query == FETCH_QUERY@ {
        fetch_only_peeks();
    } else if query == UIDS_QUERY@ {
        uids_only_peek();
    } else {
        let since = choose|since: Option<u64>| query == #[trigger] sync_query(since);
        sync_only_peeks(since);
    }
}

/// The keyword of a command.
pub open spec fn keyword(command: CommandModel) -> Seq<char> {
    match command {
        CommandModel::Capability => "CAPABILITY"@,
        CommandModel::EnableQresync => "ENABLE"@,
        CommandModel::List { .. } => "LIST"@,
        CommandModel::Select { .. } => "SELECT"@,
        CommandModel::UidFetch(_) => "UID FETCH"@,
    }
}

/// The keywords of the commands that create, remove, rename or fill mailboxes,
/// that change flags, or that remove messages.
pub open spec fn is_altering(keyword: Seq<char>) -> bool {
    ||| keyword == "CREATE"@
    ||| keyword == "DELETE"@
    ||| keyword == "RENAME"@
    ||| keyword == "SUBSCRIBE"@
    ||| keyword == "UNSUBSCRIBE"@
    ||| keyword == "APPEND"@
    ||| keyword == "STORE"@
    ||| keyword == "COPY"@
    ||| keyword == "MOVE"@
    ||| keyword == "EXPUNGE"@
    ||| keyword == "CLOSE"@
    ||| keyword == "UID STORE"@
    ||| keyword == "UID COPY"@
    ||| keyword == "UID MOVE"@
    ||| keyword == "UID EXPUNGE"@
}

/// Whether a command only reads: it is none of the altering ones, and if it
/// fetches messages it only peeks.
pub open spec fn only_reads(command: CommandModel) -> bool {
    &&& !is_altering(keyword(command))
    &&& command matches CommandModel::UidFetch(request) ==> only_peeks(request.query)
}

/// No keyword of a reader's commands is that of an altering one.
proof fn keywords_are_harmless(command: CommandModel)
    ensures
        !is_altering(keyword(command)),
{
    reveal_strlit("CAPABILITY");
    reveal_strlit("ENABLE");
    reveal_strlit("LIST");
    reveal_strlit("SELECT");
    reveal_strlit("UID FETCH");
    reveal_strlit("CREATE");
    reveal_strlit("DELETE");
    reveal_strlit("RENAME");
    reveal_strlit("SUBSCRIBE");
    reveal_strlit("UNSUBSCRIBE");
    reveal_strlit("APPEND");
    reveal_strlit("STORE");
    reveal_strlit("COPY");
    reveal_strlit("MOVE");
    reveal_strlit("EXPUNGE");
    reveal_strlit("CLOSE");
    reveal_strlit("UID STORE");
    reveal_strlit("UID COPY");
    reveal_strlit("UID MOVE");
    reveal_strlit("UID EXPUNGE");
    assert("CAPABILITY"@[1] == 'A');
    assert("CREATE"@[1] == 'R' && "COPY"@[1] == 'O' && "CLOSE"@[1] == 'L');
    assert("ENABLE"@[1] == 'N' && "EXPUNGE"@[1] == 'X');
    assert("LIST"@[0] == 'L' && "CAPABILITY"@[0] == 'C' && "ENABLE"@[0] == 'E');
    assert("SELECT"@[0] == 'S' && "SELECT"@[1] == 'E');
    assert("SUBSCRIBE"@[1] == 'U' && "STORE"@[1] == 'T');
    assert("UID FETCH"@[0] == 'U' && "UID FETCH"@[1] == 'I' && "UID FETCH"@[4] == 'F');
    assert("UID STORE"@[4] == 'S' && "UID STORE"@[5] == 'T' && "UNSUBSCRIBE"@[1] == 'N');
    assert("UID COPY"@[4] == 'C' && "UID MOVE"@[4] == 'M' && "UID EXPUNGE"@[4] == 'E');
    assert("DELETE"@[0] == 'D' && "RENAME"@[0] == 'R' && "APPEND"@[0] == 'A' && "MOVE"@[0] == 'M');
    assert("CREATE"@[0] == 'C' && "COPY"@[0] == 'C' && "CLOSE"@[0] == 'C');
    assert("SUBSCRIBE"@[0] == 'S' && "STORE"@[0] == 'S' && "EXPUNGE"@[0] == 'E');
    assert("UNSUBSCRIBE"@[0] == 'U' && "UID STORE"@[0] == 'U' && "UID COPY"@[0] == 'U');
    assert("UID MOVE"@[0] == 'U' && "UID EXPUNGE"@[0] == 'U');
}

/// The commands of a whole synchronization: the capabilities, QRESYNC if it is
/// wanted, the mailbox, and one fetch if the mailbox reports its UID validity.
pub open spec fn sync_commands(
    mailbox: Seq<char>,
    previous: Option<MailboxState>,
    answers: SyncAnswers,
) -> Seq<CommandModel> {
    let wanted = wants_qresync(answers.capabilities, previous);
    start_commands() + select_commands(mailbox, wanted) + match answers.selected.uid_validity {
        Some(uid_validity) => mailbox_commands(
            changes_since(wanted && answers.enabled, previous, uid_validity),
        ),
        None => seq![],
    }
}

/// Whether a command is one of the three that discovery and retrieval take:
/// `LIST`, `SELECT`, and a `UID FETCH` that only peeks.
pub open spec fn is_permitted(command: CommandModel) -> bool {
    match command {
        CommandModel::List { .. } => true,
        CommandModel::Select { .. } => true,
        CommandModel::UidFetch(request) => only_peeks(request.query),
        _ => false,
    }
}

/// Listing mailboxes, finding the newest messages and fetching a message take
/// `LIST`, `SELECT` and peeking `UID FETCH` commands alone. A synchronization
/// takes those and, to negotiate QRESYNC, `CAPABILITY` and `ENABLE QRESYNC`.
pub proof fn readers_are_restricted(
    mailbox: Seq<char>,
    uid: u32,
    previous: Option<MailboxState>,
    answers: SyncAnswers,
)
    ensures
        forall|i: int|
            0 <= i < list_commands().len() ==> is_permitted(#[trigger] list_commands()[i]),
        forall|i: int|
            0 <= i < recent_commands(mailbox).len() ==> is_permitted(
                #[trigger] recent_commands(mailbox)[i],
            ),
        forall|i: int|
            0 <= i < fetch_commands(mailbox, uid).len() ==> is_permitted(
                #[trigger] fetch_commands(mailbox, uid)[i],
            ),
        forall|i: int|
            0 <= i < sync_commands(mailbox, previous, answers).len() ==> {
                let command = #[trigger] sync_commands(mailbox, previous, answers)[i];
                is_permitted(command) || command is Capability || command is EnableQresync
            },
{
    fetch_only_peeks();
    uids_only_peek();
    if answers.selected.uid_validity is Some {
        sync_only_peeks(
            changes_since(
                wants_qresync(answers.capabilities, previous) && answers.enabled,
                previous,
                answers.selected.uid_validity->0,
            ),
        );
    }
}

/// Whatever a reader is asked for, it only has commands sent that read: none
/// alters a mailbox or sets a flag.
pub proof fn readers_only_read(
    mailbox: Seq<char>,
    uid: u32,
    previous: Option<MailboxState>,
    answers: SyncAnswers,
)
    ensures
        forall|i: int| 0 <= i < list_commands().len() ==> only_reads(#[trigger] list_commands()[i]),
        forall|i: int|
            0 <= i < recent_commands(mailbox).len() ==> only_reads(
                #[trigger] recent_commands(mailbox)[i],
            ),
        forall|i: int|
            0 <= i < fetch_commands(mailbox, uid).len() ==> only_reads(
                #[trigger] fetch_commands(mailbox, uid)[i],
            ),
        forall|i: int|
            0 <= i < sync_commands(mailbox, previous, answers).len() ==> only_reads(
                #[trigger] sync_commands(mailbox, previous, answers)[i],
            ),
{
    fetch_only_peeks();
    uids_only_peek();
    keywords_are_harmless(list_command());
    keywords_are_harmless(CommandModel::Select { mailbox });
    keywords_are_harmless(CommandModel::UidFetch(uids_request()));
    keywords_are_harmless(CommandModel::UidFetch(message_request(uid)));
    let commands = sync_commands(mailbox, previous, answers);
    let wanted = wants_qresync(answers.capabilities, previous);
    assert forall|i: int| 0 <= i < commands.len() implies only_reads(#[trigger] commands[i]) by {
        keywords_are_harmless(commands[i]);
        if answers.selected.uid_validity is Some {
            sync_only_peeks(
                changes_since(
                    wanted && answers.enabled,
                    previous,
                    answers.selected.uid_validity->0,
                ),
            );
        }
    }
}

/// The URIs of a mailbox's messages begin as the mailbox's do, and messages with
/// different UIDs have different URIs.
pub proof fn uris_tell_messages_apart(
    account: Seq<char>,
    mailbox: Seq<char>,
    uid: u32,
    other: u32,
)
    ensures
        text::has_prefix(
            message_uri(account, mailbox, uid),
            mailbox_uri_prefix(account, mailbox),
        ),
        uid != other ==> message_uri(account, mailbox, uid) != message_uri(
            account,
            mailbox,
            other,
        ),
{
    let p = mailbox_uri_prefix(account, mailbox);
    let a = text::decimal(uid as nat);
    let b = text::decimal(other as nat);
    assert((p + a).take(p.len() as int) == p);
    assert((p + a).skip(p.len() as int) == a);
    assert((p + b).skip(p.len() as int) == b);
    text::parse_undoes_decimal(uid as nat, u32::MAX as nat);
    text::parse_undoes_decimal(other as nat, u32::MAX as nat);
}

/// The newest UIDs come in descending order, no more than `limit`, and all of
/// them if they are no more. Every UID that was found is among them, unless the
/// limit is reached and all of them are at least as new. None comes twice if
/// none was found twice.
pub proof fn newest_are_kept(uids: Seq<u32>, limit: nat)
    ensures
        ({
            let newest = newest_first(uids, limit);
            &&& newest.len() == if limit <= uids.len() {
                limit
            } else {
                uids.len()
            }
            &&& forall|i: int, j: int| 0 <= i <= j < newest.len() ==> newest[i] >= newest[j]
            &&& forall|u: u32| newest.contains(u) ==> uids.contains(u)
            &&& forall|u: u32| #[trigger]
                uids.contains(u) ==> newest.contains(u) || (newest.len() == limit && forall|j: int|
                    0 <= j < newest.len() ==> newest[j] >= u)
            &&& uids.no_duplicates() ==> newest.no_duplicates()
        }),
{
    broadcast use vstd::seq_lib::group_to_multiset_ensures;

    let sorted = uids.sort_by(no_older());
    let newest = newest_first(uids, limit);
    no_older_is_total();
    uids.lemma_sort_by_ensures(no_older());
    assert(sorted.to_multiset().len() == sorted.len());
    assert(uids.to_multiset().len() == uids.len());
    if uids.no_duplicates() {
        uids.lemma_multiset_has_no_duplicates();
        sorted.lemma_multiset_has_no_duplicates_conv();
    }
    assert forall|i: int, j: int| 0 <= i <= j < newest.len() implies newest[i] >= newest[j] by {
        if i < j {
            assert(no_older()(sorted[i], sorted[j]));
        }
    }
    assert forall|u: u32| newest.contains(u) implies uids.contains(u) by {
        let i = newest.index_of(u);
        assert(sorted[i] == u);
        assert(sorted.contains(u));
    }
    assert forall|u: u32| #[trigger] uids.contains(u) implies newest.contains(u) || (newest.len()
        == limit && forall|j: int| 0 <= j < newest.len() ==> newest[j] >= u) by {
        assert(uids.to_multiset().count(u) > 0);
        assert(sorted.to_multiset().count(u) > 0);
        assert(sorted.contains(u));
        let k = sorted.index_of(u);
        if k < newest.len() {
            assert(newest[k] == u);
        } else {
            assert forall|j: int| 0 <= j < newest.len() implies newest[j] >= u by {
                assert(no_older()(sorted[j], sorted[k]));
            }
        }
    }
}

/// A synchronization is a delta or a full refresh, never both. It is a full
/// refresh if there was no earlier one, if that left no modification sequence,
/// if the mailbox's UIDs have a new validity, or if the server lacks QRESYNC or
/// refused it. A full refresh reports no vanished messages.
pub proof fn when_sync_is_full(
    account: Seq<char>,
    mailbox: Seq<char>,
    previous: Option<MailboxState>,
    answers: SyncAnswers,
)
    ensures
        synchronized(account, mailbox, previous, answers) matches Ok(sync) ==> {
            &&& sync.full_refresh == !sync.used_qresync
            &&& sync.full_refresh <==> {
                ||| previous is None
                ||| previous->0.highest_mod_sequence is None
                ||| previous->0.uid_validity != sync.state.uid_validity
                ||| !answers.capabilities.qresync
                ||| !answers.capabilities.enable
                ||| !answers.enabled
            }
            &&& sync.full_refresh ==> sync.vanished.len() == 0
        },
{
}

/// A synchronization succeeds exactly if the server reported the UID validity
/// and sent every message with its UID and its body.
pub proof fn when_sync_succeeds(
    account: Seq<char>,
    mailbox: Seq<char>,
    previous: Option<MailboxState>,
    answers: SyncAnswers,
)
    ensures
        synchronized(account, mailbox, previous, answers) is Ok <==> {
            &&& answers.selected.uid_validity is Some
            &&& forall|i: int|
                0 <= i < answers.items@.len() ==> (#[trigger] answers.items@[i]).uid is Some
                    && answers.items@[i].body is Some
        },
        synchronized(account, mailbox, previous, answers) matches Ok(sync) ==> {
            &&& sync.changed.len() == answers.items@.len()
            &&& forall|i: int|
                0 <= i < sync.changed.len() ==> Ok::<MessageModel, ReadErrorModel>(
                    #[trigger] sync.changed[i],
                ) == message_in(account, mailbox, answers.items@[i].uid->0, answers.items@[i])
        },
{
    complete_items(account, mailbox, answers.items@);
}

proof fn complete_items(account: Seq<char>, mailbox: Seq<char>, items: Seq<FetchItem>)
    ensures
        messages_in(account, mailbox, items) is Ok <==> forall|i: int|
            0 <= i < items.len() ==> (#[trigger] items[i]).uid is Some && items[i].body is Some,
        messages_in(account, mailbox, items) matches Ok(messages) ==> {
            &&& messages.len() == items.len()
            &&& forall|i: int|
                0 <= i < messages.len() ==> Ok::<MessageModel, ReadErrorModel>(
                    #[trigger] messages[i],
                ) == message_in(account, mailbox, items[i].uid->0, items[i])
        },
    decreases items.len(),
{
    if items.len() > 0 {
        let before = items.drop_last();
        complete_items(account, mailbox, before);
        assert forall|i: int| 0 <= i < before.len() implies before[i] == #[trigger] items[i] by {}
        if messages_in(account, mailbox, items) is Ok {
            assert forall|i: int| 0 <= i < items.len() implies (#[trigger] items[i]).uid is Some
                && items[i].body is Some by {
                if i < before.len() {
                    assert(before[i] == items[i]);
                }
            }
        }
        if forall|i: int|
            0 <= i < items.len() ==> (#[trigger] items[i]).uid is Some && items[i].body is Some {
            assert(items[items.len() - 1] == items.last());
        }
    }
}

/// Whether a modification sequence is not behind another.
pub open spec fn not_behind(a: Option<u64>, b: Option<u64>) -> bool {
    later(a, b) == a
}

/// The state that a synchronization leaves is behind neither what the server
/// reported of the mailbox nor any message that it sent, and it is one of
/// those. So the next synchronization does not ask for them again.
pub proof fn state_is_not_behind(
    account: Seq<char>,
    mailbox: Seq<char>,
    previous: Option<MailboxState>,
    answers: SyncAnswers,
)
    ensures
        synchronized(account, mailbox, previous, answers) matches Ok(sync) ==> {
            let highest = sync.state.highest_mod_sequence;
            &&& Some(sync.state.uid_validity) == answers.selected.uid_validity
            &&& not_behind(highest, answers.selected.highest_mod_seq)
            &&& forall|i: int|
                0 <= i < answers.items@.len() ==> not_behind(
                    highest,
                    (#[trigger] answers.items@[i]).mod_seq,
                )
            &&& highest == answers.selected.highest_mod_seq || exists|i: int|
                0 <= i < answers.items@.len() && highest == (#[trigger] answers.items@[i]).mod_seq
        },
{
    latest_is_greatest(answers.selected.highest_mod_seq, answers.items@);
}

proof fn latest_is_greatest(start: Option<u64>, items: Seq<FetchItem>)
    ensures
        not_behind(latest(start, items), start),
        forall|i: int|
            0 <= i < items.len() ==> not_behind(latest(start, items), (#[trigger] items[i]).mod_seq),
        latest(start, items) == start || exists|i: int|
            0 <= i < items.len() && latest(start, items) == (#[trigger] items[i]).mod_seq,
    decreases items.len(),
{
    if items.len() > 0 {
        let before = items.drop_last();
        latest_is_greatest(start, before);
        assert forall|i: int| 0 <= i < items.len() implies not_behind(
            latest(start, items),
            (#[trigger] items[i]).mod_seq,
        ) by {
            if i < before.len() {
                assert(before[i] == items[i]);
            }
        }
        if latest(start, items) == latest(start, before) {
            if latest(start, before) != start {
                let i = choose|i: int|
                    0 <= i < before.len() && latest(start, before) == (#[trigger] before[i]).mod_seq;
                assert(items[i] == before[i]);
            }
        } else {
            assert(items[items.len() - 1].mod_seq == latest(start, items));
        }
    }
}

/// A synchronization that starts from the state that another one left asks for
/// the changes since then, if the server grants QRESYNC and the UIDs still mean
/// what they meant.
pub proof fn next_sync_continues(
    account: Seq<char>,
    mailbox: Seq<char>,
    previous: Option<MailboxState>,
    answers: SyncAnswers,
    capabilities: Capabilities,
)
    requires
        capabilities.qresync,
        capabilities.enable,
    ensures
        synchronized(account, mailbox, previous, answers) matches Ok(sync) ==> {
            let state = sync.state;
            state.highest_mod_sequence is Some ==> {
                &&& wants_qresync(capabilities, Some(state))
                &&& changes_since(true, Some(state), state.uid_validity)
                    == state.highest_mod_sequence
            }
        },
{
}

} // verus!
