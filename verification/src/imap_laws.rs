//! What reading mail over IMAP is for: how requests follow from what was asked,
//! and how results follow from what the server answered.

use vstd::prelude::*;
use vstd::utf8;

use crate::imap;
use crate::imap::{
    Authentication, Capabilities, Command, CommandModel, FetchItem, FetchModel, FetchedMessage,
    Login, LoginModel, MailboxState, MailboxSync, MessageFlag, MessageModel, ReadError,
    ReadErrorModel, SyncAnswers, UidRange, Unsolicited,
};
use crate::text;
use crate::text_laws;

verus! {

// ---------------------------------------------------------------------------
// Messages

/// A message's model holds each of its fields.
pub proof fn message_models_hold_all_fields(messages: Seq<FetchedMessage>)
    ensures
        imap::message_models(messages).len() == messages.len(),
        forall|i: int|
            0 <= i < messages.len() ==> {
                let m = #[trigger] messages[i];
                let model = imap::message_models(messages)[i];
                &&& m@ == model
                &&& model.uid == m.uid
                &&& model.account == m.source.account@
                &&& model.mailbox == m.source.mailbox@
                &&& model.rfc822 == m.rfc822@
                &&& model.is_seen == m.is_seen
                &&& model.mod_sequence == m.mod_sequence
            },
{
}

/// A synchronization's model holds each of its fields.
pub proof fn sync_model_holds_all_fields(sync: MailboxSync)
    ensures
        sync@.state == sync.state,
        sync@.changed == imap::message_models(sync.changed@),
        sync@.vanished == sync.vanished@,
        sync@.used_qresync == sync.used_qresync,
        sync@.full_refresh == sync.full_refresh,
{
}

/// The URI of a message spells the scheme, the account, the mailbox and the UID,
/// each in full and in this order.
pub proof fn uri_spells_the_source(account: Seq<char>, mailbox: Seq<char>, uid: u32)
    ensures
        ({
            let uri = imap::message_uri(account, mailbox, uid);
            let a: int = 7 + account.len() as int;
            let m: int = a + 1 + mailbox.len();
            &&& uri == imap::mailbox_uri_prefix(account, mailbox) + text::decimal(uid as nat)
            &&& uri.len() == m + 5 + text::decimal(uid as nat).len()
            &&& uri.subrange(0, 7) == "imap://"@
            &&& uri.subrange(7, a) == account
            &&& uri[a] == '/'
            &&& uri.subrange(a + 1, m) == mailbox
            &&& uri.subrange(m, m + 5) == ";uid="@
            &&& uri.skip(m + 5) == text::decimal(uid as nat)
        }),
{
    reveal_strlit("imap://");
    reveal_strlit("/");
    reveal_strlit(";uid=");
    let uri = imap::message_uri(account, mailbox, uid);
    let a: int = 7 + account.len() as int;
    let m: int = a + 1 + mailbox.len();
    assert(uri.subrange(0, 7) =~= "imap://"@);
    assert(uri.subrange(7, a) =~= account);
    assert(uri.subrange(a + 1, m) =~= mailbox);
    assert(uri.subrange(m, m + 5) =~= ";uid="@);
    assert(uri.skip(m + 5) =~= text::decimal(uid as nat));
}

// ---------------------------------------------------------------------------
// Authentication

/// A `PLAIN` response holds the whole user name and the whole password, a NUL
/// before each of them, and nothing else.
pub proof fn plain_spells_the_credentials(username: Seq<char>, password: Seq<char>)
    ensures
        ({
            let r = imap::plain_text(username, password);
            let n = username.len() as int;
            &&& r.len() == 2 + username.len() + password.len()
            &&& r[0] == '\0'
            &&& r.subrange(1, 1 + n) == username
            &&& r[1 + n] == '\0'
            &&& r.skip(2 + n) == password
        }),
        // Split at its NULs, it is an empty authorization identity, the user
        // name and the password.
        !username.contains('\0') && !password.contains('\0') ==> text::split_at_each(
            imap::plain_text(username, password),
            '\0',
        ) == seq![Seq::<char>::empty(), username, password],
{
    reveal_strlit("\0");
    let r = imap::plain_text(username, password);
    let n = username.len() as int;
    assert(r.subrange(1, 1 + n) =~= username);
    assert(r.skip(2 + n) =~= password);
    if !username.contains('\0') && !password.contains('\0') {
        let empty = Seq::<char>::empty();
        let rest = username.push('\0') + password;
        assert(r =~= empty.push('\0') + rest);
        text_laws::pieces_of_joined(empty, '\0', rest);
        text_laws::pieces_of_joined(username, '\0', password);
        text_laws::pieces_of_joined(password, '\0', empty);
        assert(text::split_at_each(r, '\0') =~= seq![empty, username, password]);
    }
}

/// An `XOAUTH2` response holds the whole user name and the whole token, between
/// fixed words. Split at its control characters, it is the two parameters and
/// two empty ones.
pub proof fn xoauth2_spells_the_credentials(username: Seq<char>, token: Seq<char>)
    ensures
        ({
            let r = imap::xoauth2_text(username, token);
            let n = 5 + username.len() as int;
            &&& r.len() == n + 13 + token.len() + 2
            &&& r.subrange(0, 5) == "user="@
            &&& r.subrange(5, n) == username
            &&& r[n] == '\x01'
            &&& r.subrange(n + 1, n + 13) == "auth=Bearer "@
            &&& r.subrange(n + 13, n + 13 + token.len()) == token
            &&& r[n + 13 + token.len()] == '\x01'
            &&& r[n + 14 + token.len()] == '\x01'
        }),
{
    reveal_strlit("user=");
    reveal_strlit("\x01auth=Bearer ");
    reveal_strlit("auth=Bearer ");
    reveal_strlit("\x01\x01");
    let r = imap::xoauth2_text(username, token);
    let n = 5 + username.len() as int;
    assert(r.subrange(0, 5) =~= "user="@);
    assert(r.subrange(5, n) =~= username);
    assert(r.subrange(n + 1, n + 13) =~= "auth=Bearer "@);
    assert(r.subrange(n + 13, n + 13 + token.len()) =~= token);
}

/// An `OAUTHBEARER` response holds the whole user name, the host, the port in
/// decimal and the whole token, between fixed words.
pub proof fn oauth_bearer_spells_the_credentials(
    username: Seq<char>,
    token: Seq<char>,
    host: Seq<char>,
    port: u16,
)
    ensures
        ({
            let r = imap::oauth_bearer_text(username, token, host, port);
            let digits = text::decimal(port as nat);
            let u = 4 + username.len() as int;
            let h = u + 7 + host.len();
            let p = h + 6 + digits.len();
            let t = p + 13 + token.len();
            &&& r.len() == t + 2
            &&& r.subrange(0, 4) == "n,a="@
            &&& r.subrange(4, u) == username
            &&& r[u] == ','
            &&& r[u + 1] == '\x01'
            &&& r.subrange(u + 2, u + 7) == "host="@
            &&& r.subrange(u + 7, h) == host
            &&& r[h] == '\x01'
            &&& r.subrange(h + 1, h + 6) == "port="@
            &&& r.subrange(h + 6, p) == digits
            &&& r[p] == '\x01'
            &&& r.subrange(p + 1, p + 13) == "auth=Bearer "@
            &&& r.subrange(p + 13, t) == token
            &&& r[t] == '\x01'
            &&& r[t + 1] == '\x01'
        }),
{
    reveal_strlit("n,a=");
    reveal_strlit(",\x01host=");
    reveal_strlit("host=");
    reveal_strlit("\x01port=");
    reveal_strlit("port=");
    reveal_strlit("\x01auth=Bearer ");
    reveal_strlit("auth=Bearer ");
    reveal_strlit("\x01\x01");
    let r = imap::oauth_bearer_text(username, token, host, port);
    let digits = text::decimal(port as nat);
    let u = 4 + username.len() as int;
    let h = u + 7 + host.len();
    let p = h + 6 + digits.len();
    let t = p + 13 + token.len();
    assert(r.subrange(0, 4) =~= "n,a="@);
    assert(r.subrange(4, u) =~= username);
    assert(r.subrange(u + 2, u + 7) =~= "host="@);
    assert(r.subrange(u + 7, h) =~= host);
    assert(r.subrange(h + 1, h + 6) =~= "port="@);
    assert(r.subrange(h + 6, p) =~= digits);
    assert(r.subrange(p + 1, p + 13) =~= "auth=Bearer "@);
    assert(r.subrange(p + 13, t) =~= token);
}

/// A plan connects to the host and port that were asked for, for the user that
/// was asked for, with a login by the mechanism that was asked for. What a SASL
/// mechanism sends decodes to the text of its response.
pub proof fn plan_follows_the_request(
    host: Seq<char>,
    port: u16,
    username: Seq<char>,
    secret: Seq<char>,
    authentication: Authentication,
)
    ensures
        ({
            let plan = imap::connect_plan(host, port, username, secret, authentication);
            &&& plan.host == host
            &&& plan.port == port
            &&& plan.account == username
            &&& !plan.skip_tls_verify
            &&& authentication is Login <==> plan.login is Password
            &&& plan.login matches LoginModel::Password { username: u, password } ==> u == username
                && password == secret
            &&& plan.login matches LoginModel::Sasl { mechanism, response } ==> {
                let text = utf8::decode_utf8(response);
                &&& utf8::valid_utf8(response)
                &&& authentication is Plain ==> mechanism == "PLAIN"@ && text == imap::plain_text(
                    username,
                    secret,
                )
                &&& authentication is XOAuth2 ==> mechanism == "XOAUTH2"@ && text
                    == imap::xoauth2_text(username, secret)
                &&& authentication is OAuthBearer ==> mechanism == "OAUTHBEARER"@ && text
                    == imap::oauth_bearer_text(username, secret, host, port)
            }
        }),
{
    broadcast use {utf8::encode_utf8_valid_utf8, utf8::encode_utf8_decode_utf8};

}

/// A login's model holds what the login holds.
pub proof fn login_model_holds_all_fields(login: Login)
    ensures
        login matches Login::Password { username, password } ==> login@ == (LoginModel::Password {
            username: username@,
            password: password@,
        }),
        login matches Login::Sasl { mechanism, response } ==> login@ == (LoginModel::Sasl {
            mechanism: mechanism@,
            response: response.0@,
        }),
{
}

// ---------------------------------------------------------------------------
// What a server answers

/// An error's sentence names the UID and the mailbox that the error carries.
pub proof fn read_error_sentences_name_their_cause(uid: u32, mailbox: Seq<char>)
    ensures
        ({
            let digits = text::decimal(uid as nat);
            &&& imap::read_error_sentence(ReadErrorModel::MessageNotFound { uid, mailbox })
                == "UID "@ + digits + " was not found in "@ + mailbox
            &&& imap::read_error_sentence(ReadErrorModel::UidValidityMissing { mailbox }) == mailbox
                + " does not report UIDVALIDITY"@
            &&& imap::read_error_sentence(ReadErrorModel::BodyMissing { uid })
                == "server did not return RFC 822 data for UID "@ + digits
            &&& imap::read_error_sentence(ReadErrorModel::UidOmitted)
                == "server omitted UID in UID FETCH response"@
        }),
{
}

/// An error's model holds what the error holds.
pub proof fn read_error_model_holds_all_fields(error: ReadError)
    ensures
        error matches ReadError::MessageNotFound { uid, mailbox } ==> error@ == (
        ReadErrorModel::MessageNotFound { uid, mailbox: mailbox@ }),
        error matches ReadError::UidValidityMissing { mailbox } ==> error@ == (
        ReadErrorModel::UidValidityMissing { mailbox: mailbox@ }),
        error matches ReadError::BodyMissing { uid } ==> error@ == (ReadErrorModel::BodyMissing {
            uid,
        }),
        error is UidOmitted ==> error@ == ReadErrorModel::UidOmitted,
{
}

/// A `FETCH` response gives a message exactly if it holds a body. The message has
/// that body, the UID, the account and the mailbox that were asked for, and the
/// response's modification sequence; it is seen exactly if `\Seen` is among the
/// flags.
pub proof fn message_is_what_the_server_sent(
    account: Seq<char>,
    mailbox: Seq<char>,
    uid: u32,
    item: FetchItem,
)
    ensures
        match (item.body, imap::message_in(account, mailbox, uid, item)) {
            (Some(body), Ok(m)) => {
                &&& m.uid == uid
                &&& m.account == account
                &&& m.mailbox == mailbox
                &&& m.rfc822 == body@
                &&& m.mod_sequence == item.mod_seq
                &&& m.is_seen <==> exists|i: int|
                    0 <= i < item.flags@.len() && #[trigger] item.flags@[i] == MessageFlag::Seen
            },
            (None, Err(e)) => e == (ReadErrorModel::BodyMissing { uid }),
            _ => false,
        },
{
}

/// Whether a response holds both a UID and a body.
pub open spec fn is_complete(item: FetchItem) -> bool {
    item.uid is Some && item.body is Some
}

/// Complete responses give one message each, in their order: each has the
/// response's UID, body and modification sequence, and is seen exactly if `\Seen`
/// is among the response's flags, for the account and the mailbox in question.
pub proof fn messages_are_what_the_server_sent(
    account: Seq<char>,
    mailbox: Seq<char>,
    items: Seq<FetchItem>,
)
    requires
        forall|i: int| 0 <= i < items.len() ==> is_complete(#[trigger] items[i]),
    ensures
        imap::messages_in(account, mailbox, items) matches Ok(messages) && {
            &&& messages.len() == items.len()
            &&& forall|i: int|
                0 <= i < items.len() ==> {
                    let item = items[i];
                    let m = #[trigger] messages[i];
                    &&& Some(m.uid) == item.uid
                    &&& m.account == account
                    &&& m.mailbox == mailbox
                    &&& m.rfc822 == item.body->0@
                    &&& m.mod_sequence == item.mod_seq
                    &&& m.is_seen <==> item.flags@.contains(MessageFlag::Seen)
                }
        },
    decreases items.len(),
{
    if items.len() > 0 {
        let before = items.drop_last();
        assert forall|i: int| 0 <= i < before.len() implies is_complete(#[trigger] before[i]) by {
            assert(before[i] == items[i]);
        }
        messages_are_what_the_server_sent(account, mailbox, before);
        assert(is_complete(items[items.len() - 1]));
        let messages = imap::messages_in(account, mailbox, items)->Ok_0;
        let earlier = imap::messages_in(account, mailbox, before)->Ok_0;
        assert forall|i: int| 0 <= i < items.len() implies {
            let item = items[i];
            let m = #[trigger] messages[i];
            &&& Some(m.uid) == item.uid
            &&& m.account == account
            &&& m.mailbox == mailbox
            &&& m.rfc822 == item.body->0@
            &&& m.mod_sequence == item.mod_seq
            &&& m.is_seen <==> item.flags@.contains(MessageFlag::Seen)
        } by {
            if i < before.len() {
                assert(messages[i] == earlier[i]);
                assert(before[i] == items[i]);
            }
        }
    }
}

/// The first incomplete response decides the error: a missing UID is reported
/// before a missing body.
pub proof fn first_incomplete_response_is_reported(
    account: Seq<char>,
    mailbox: Seq<char>,
    items: Seq<FetchItem>,
    i: int,
)
    requires
        0 <= i < items.len(),
        !is_complete(items[i]),
        forall|j: int| 0 <= j < i ==> is_complete(#[trigger] items[j]),
    ensures
        imap::messages_in(account, mailbox, items) == Err::<Seq<MessageModel>, ReadErrorModel>(
            match items[i].uid {
                None => ReadErrorModel::UidOmitted,
                Some(uid) => ReadErrorModel::BodyMissing { uid },
            },
        ),
    decreases items.len(),
{
    let before = items.drop_last();
    if i < before.len() {
        assert(before[i] == items[i]);
        assert forall|j: int| 0 <= j < i implies is_complete(#[trigger] before[j]) by {
            assert(before[j] == items[j]);
        }
        first_incomplete_response_is_reported(account, mailbox, before, i);
    } else {
        assert forall|j: int| 0 <= j < before.len() implies is_complete(#[trigger] before[j]) by {
            assert(before[j] == items[j]);
        }
        messages_are_what_the_server_sent(account, mailbox, before);
        assert(items.last() == items[i]);
    }
}

/// The latest modification sequence is one of those given, the start or a
/// response's, and none of them is later. There is none only if none is given.
pub proof fn latest_is_the_maximum(start: Option<u64>, items: Seq<FetchItem>)
    ensures
        ({
            let latest = imap::latest(start, items);
            &&& latest == start || exists|i: int|
                0 <= i < items.len() && (#[trigger] items[i]).mod_seq == latest
            &&& start is Some ==> latest is Some && latest->0 >= start->0
            &&& forall|i: int|
                0 <= i < items.len() && (#[trigger] items[i]).mod_seq is Some ==> latest is Some
                    && latest->0 >= items[i].mod_seq->0
        }),
    decreases items.len(),
{
    if items.len() > 0 {
        let before = items.drop_last();
        latest_is_the_maximum(start, before);
        let latest = imap::latest(start, items);
        let earlier = imap::latest(start, before);
        assert(items.last() == items[items.len() - 1]);
        assert forall|i: int|
            0 <= i < items.len() && (#[trigger] items[i]).mod_seq is Some implies latest is Some
            && latest->0 >= items[i].mod_seq->0 by {
            if i < before.len() {
                assert(before[i] == items[i]);
            }
        }
        if latest == earlier && earlier != start {
            let i = choose|i: int|
                0 <= i < before.len() && (#[trigger] before[i]).mod_seq == earlier;
            assert(items[i] == before[i]);
        }
    }
}

// ---------------------------------------------------------------------------
// Vanished messages

/// A range holds every number from its start to its end, once and in ascending
/// order.
pub proof fn range_is_every_number_in_between(range: UidRange)
    ensures
        ({
            let uids = imap::range_uids(range);
            &&& range.end < range.start ==> uids.len() == 0
            &&& range.start <= range.end ==> uids.len() == range.end - range.start + 1
            &&& forall|i: int| 0 <= i < uids.len() ==> #[trigger] uids[i] == range.start + i
            &&& forall|u: u32| #[trigger] uids.contains(u) <==> range.start <= u <= range.end
        }),
{
    let uids = imap::range_uids(range);
    assert forall|u: u32| #[trigger] uids.contains(u) <==> range.start <= u <= range.end by {
        if range.start <= u <= range.end {
            assert(uids[u - range.start] == u);
        }
    }
}

/// The numbers of several ranges are those of the first ones and then those of
/// the others; the numbers of one range are its own.
pub proof fn ranges_follow_one_another(a: Seq<UidRange>, b: Seq<UidRange>, range: UidRange)
    ensures
        imap::ranges_uids(a + b) == imap::ranges_uids(a) + imap::ranges_uids(b),
        imap::ranges_uids(seq![range]) == imap::range_uids(range),
    decreases b.len(),
{
    reveal_with_fuel(imap::ranges_uids, 2);
    assert(seq![range].drop_last() =~= Seq::<UidRange>::empty());
    assert(imap::ranges_uids(seq![range]) =~= imap::range_uids(range));
    if b.len() == 0 {
        assert(a + b =~= a);
        assert(imap::ranges_uids(a + b) =~= imap::ranges_uids(a) + imap::ranges_uids(b));
    } else {
        ranges_follow_one_another(a, b.drop_last(), range);
        assert((a + b).drop_last() =~= a + b.drop_last());
        assert(imap::ranges_uids(a + b) =~= imap::ranges_uids(a) + imap::ranges_uids(b));
    }
}

/// What several responses report is what the first ones report and then what the
/// others do; a `VANISHED` response reports its ranges, and any other nothing.
pub proof fn responses_follow_one_another(
    a: Seq<Unsolicited>,
    b: Seq<Unsolicited>,
    ranges: Vec<UidRange>,
)
    ensures
        imap::vanished_uids(a + b) == imap::vanished_uids(a) + imap::vanished_uids(b),
        imap::vanished_uids(seq![Unsolicited::Vanished(ranges)]) == imap::ranges_uids(ranges@),
        imap::vanished_uids(seq![Unsolicited::Other]).len() == 0,
    decreases b.len(),
{
    reveal_with_fuel(imap::vanished_uids, 2);
    assert(seq![Unsolicited::Vanished(ranges)].drop_last() =~= Seq::<Unsolicited>::empty());
    assert(seq![Unsolicited::Other].drop_last() =~= Seq::<Unsolicited>::empty());
    assert(imap::vanished_uids(seq![Unsolicited::Vanished(ranges)]) =~= imap::ranges_uids(ranges@));
    if b.len() == 0 {
        assert(a + b =~= a);
        assert(imap::vanished_uids(a + b) =~= imap::vanished_uids(a) + imap::vanished_uids(b));
    } else {
        responses_follow_one_another(a, b.drop_last(), ranges);
        assert((a + b).drop_last() =~= a + b.drop_last());
        assert(imap::vanished_uids(a + b) =~= imap::vanished_uids(a) + imap::vanished_uids(b));
    }
}

proof fn reported_by_ranges(ranges: Seq<UidRange>)
    ensures
        forall|u: u32| #[trigger]
            imap::ranges_uids(ranges).contains(u) <==> exists|j: int|
                0 <= j < ranges.len() && (#[trigger] ranges[j]).start <= u <= ranges[j].end,
    decreases ranges.len(),
{
    if ranges.len() > 0 {
        let before = ranges.drop_last();
        let last = ranges.last();
        reported_by_ranges(before);
        range_is_every_number_in_between(last);
        assert(ranges[ranges.len() - 1] == last);
        assert forall|u: u32| #[trigger]
            imap::ranges_uids(ranges).contains(u) <==> exists|j: int|
                0 <= j < ranges.len() && (#[trigger] ranges[j]).start <= u <= ranges[j].end by {
            contained_in_either(imap::ranges_uids(before), imap::range_uids(last), u);
            if imap::ranges_uids(before).contains(u) {
                let j = choose|j: int|
                    0 <= j < before.len() && (#[trigger] before[j]).start <= u <= before[j].end;
                assert(ranges[j] == before[j]);
            }
            if exists|j: int|
                0 <= j < ranges.len() && (#[trigger] ranges[j]).start <= u <= ranges[j].end {
                let j = choose|j: int|
                    0 <= j < ranges.len() && (#[trigger] ranges[j]).start <= u <= ranges[j].end;
                if j < before.len() {
                    assert(before[j] == ranges[j]);
                }
            }
        }
    }
}

proof fn contained_in_either(a: Seq<u32>, b: Seq<u32>, u: u32)
    ensures
        (a + b).contains(u) <==> a.contains(u) || b.contains(u),
{
    if a.contains(u) {
        assert((a + b)[a.index_of(u)] == u);
    }
    if b.contains(u) {
        assert((a + b)[a.len() + b.index_of(u)] == u);
    }
    if (a + b).contains(u) {
        let i = (a + b).index_of(u);
        if i < a.len() {
            assert(a[i] == u);
        } else {
            assert(b[i - a.len()] == u);
        }
    }
}

/// Whether a response reports that a message vanished: it is a `VANISHED`
/// response, and one of its ranges holds the UID.
pub open spec fn reports_vanished(response: Unsolicited, u: u32) -> bool {
    response matches Unsolicited::Vanished(ranges) && exists|j: int|
        0 <= j < ranges@.len() && (#[trigger] ranges@[j]).start <= u <= ranges@[j].end
}

/// A UID is among the vanished ones exactly if a response reports it.
pub proof fn vanished_are_those_reported(responses: Seq<Unsolicited>)
    ensures
        forall|u: u32| #[trigger]
            imap::vanished_uids(responses).contains(u) <==> exists|i: int|
                0 <= i < responses.len() && reports_vanished(#[trigger] responses[i], u),
    decreases responses.len(),
{
    if responses.len() > 0 {
        let before = responses.drop_last();
        let last = responses.last();
        vanished_are_those_reported(before);
        assert(responses[responses.len() - 1] == last);
        assert forall|u: u32| #[trigger]
            imap::vanished_uids(responses).contains(u) <==> exists|i: int|
                0 <= i < responses.len() && reports_vanished(#[trigger] responses[i], u) by {
            if let Unsolicited::Vanished(ranges) = last {
                reported_by_ranges(ranges@);
                contained_in_either(imap::vanished_uids(before), imap::ranges_uids(ranges@), u);
            }
            if imap::vanished_uids(before).contains(u) {
                let i = choose|i: int|
                    0 <= i < before.len() && reports_vanished(#[trigger] before[i], u);
                assert(responses[i] == before[i]);
            }
            if exists|i: int|
                0 <= i < responses.len() && reports_vanished(#[trigger] responses[i], u) {
                let i = choose|i: int|
                    0 <= i < responses.len() && reports_vanished(#[trigger] responses[i], u);
                if i < before.len() {
                    assert(before[i] == responses[i]);
                }
            }
        }
    }
}

// ---------------------------------------------------------------------------
// The newest messages

/// A UID is found exactly if a response carries it.
pub proof fn found_uids_are_those_carried(items: Seq<FetchItem>)
    ensures
        forall|u: u32| #[trigger]
            imap::uids_in(items).contains(u) <==> exists|i: int|
                0 <= i < items.len() && (#[trigger] items[i]).uid == Some(u),
    decreases items.len(),
{
    if items.len() > 0 {
        let before = items.drop_last();
        let last = items.last();
        found_uids_are_those_carried(before);
        assert(items[items.len() - 1] == last);
        assert forall|u: u32| #[trigger]
            imap::uids_in(items).contains(u) <==> exists|i: int|
                0 <= i < items.len() && (#[trigger] items[i]).uid == Some(u) by {
            let found = imap::uids_in(before);
            if let Some(uid) = last.uid {
                contained_in_either(found, seq![uid], u);
                assert(found.push(uid) =~= found + seq![uid]);
                assert(seq![uid][0] == uid);
                assert(seq![uid].contains(u) <==> u == uid);
            }
            if found.contains(u) {
                let i = choose|i: int|
                    0 <= i < before.len() && (#[trigger] before[i]).uid == Some(u);
                assert(items[i] == before[i]);
            }
            if exists|i: int| 0 <= i < items.len() && (#[trigger] items[i]).uid == Some(u) {
                let i = choose|i: int| 0 <= i < items.len() && (#[trigger] items[i]).uid == Some(u);
                if i < before.len() {
                    assert(before[i] == items[i]);
                }
            }
        }
    }
}

/// Whether a response carries a UID.
pub open spec fn carried(items: Seq<FetchItem>, u: u32) -> bool {
    exists|i: int| 0 <= i < items.len() && (#[trigger] items[i]).uid == Some(u)
}

/// The newest UIDs of an answer are UIDs that responses carry, in strictly
/// descending order and within the limit. A UID that a response carries is left
/// out only if the limit is reached and every UID that is given is newer.
pub proof fn newest_of_an_answer(items: Seq<FetchItem>, limit: nat)
    ensures
        ({
            let newest = imap::newest_first(imap::uids_in(items), limit);
            &&& newest.len() <= limit
            &&& forall|i: int, j: int| 0 <= i < j < newest.len() ==> newest[i] > newest[j]
            &&& forall|i: int| 0 <= i < newest.len() ==> carried(items, #[trigger] newest[i])
            &&& forall|u: u32| #[trigger]
                carried(items, u) ==> newest.contains(u) || (newest.len() == limit && forall|j: int|
                    0 <= j < newest.len() ==> #[trigger] newest[j] > u)
        }),
{
    let uids = imap::uids_in(items);
    let newest = imap::newest_first(uids, limit);
    found_uids_are_those_carried(items);
    imap::uids_are_distinct(items);
    imap::newest_are_kept(uids, limit);
    assert forall|i: int, j: int| 0 <= i < j < newest.len() implies newest[i] > newest[j] by {
        assert(newest[i] >= newest[j]);
        assert(newest[i] != newest[j]);
    }
    assert forall|i: int| 0 <= i < newest.len() implies carried(items, #[trigger] newest[i]) by {
        assert(newest.contains(newest[i]));
        assert(uids.contains(newest[i]));
    }
    assert forall|u: u32| #[trigger] carried(items, u) implies newest.contains(u) || (newest.len()
        == limit && forall|j: int| 0 <= j < newest.len() ==> #[trigger] newest[j] > u) by {
        assert(uids.contains(u));
        if !newest.contains(u) {
            assert forall|j: int| 0 <= j < newest.len() implies #[trigger] newest[j] > u by {
                assert(newest[j] >= u);
                assert(newest.contains(newest[j]));
            }
        }
    }
}

// ---------------------------------------------------------------------------
// Synchronization

/// A synchronization succeeds on a mailbox that reports its UID validity with
/// complete responses. Its result holds one message for each response, as the
/// server sent it; the mailbox's UID validity; the maximum of the modification
/// sequences that the server sent; and as vanished, in a delta, exactly the UIDs
/// that the server reported, and otherwise none. It is a delta exactly if there
/// was an earlier one that left a modification sequence, under the same UID
/// validity, and the server offered and granted QRESYNC.
pub proof fn sync_reports_what_the_server_sent(
    account: Seq<char>,
    mailbox: Seq<char>,
    previous: Option<MailboxState>,
    answers: SyncAnswers,
)
    requires
        answers.selected.uid_validity is Some,
        forall|i: int| 0 <= i < answers.items@.len() ==> is_complete(#[trigger] answers.items@[i]),
    ensures
        imap::synchronized(account, mailbox, previous, answers) matches Ok(sync) && {
            let delta = previous matches Some(state) && state.highest_mod_sequence is Some
                && Some(state.uid_validity) == answers.selected.uid_validity
                && answers.capabilities.qresync && answers.capabilities.enable && answers.enabled;
            &&& Some(sync.state.uid_validity) == answers.selected.uid_validity
            &&& sync.used_qresync == delta
            &&& sync.full_refresh == !delta
            &&& sync.changed.len() == answers.items@.len()
            &&& forall|i: int|
                0 <= i < answers.items@.len() ==> {
                    let item = answers.items@[i];
                    let m = #[trigger] sync.changed[i];
                    &&& Some(m.uid) == item.uid
                    &&& m.account == account
                    &&& m.mailbox == mailbox
                    &&& m.rfc822 == item.body->0@
                    &&& m.mod_sequence == item.mod_seq
                    &&& m.is_seen <==> item.flags@.contains(MessageFlag::Seen)
                }
            &&& !delta ==> sync.vanished.len() == 0
            &&& delta ==> sync.vanished == imap::vanished_uids(answers.unsolicited@)
            &&& delta ==> forall|u: u32| #[trigger]
                sync.vanished.contains(u) <==> exists|i: int|
                    0 <= i < answers.unsolicited@.len() && reports_vanished(
                        #[trigger] answers.unsolicited@[i],
                        u,
                    )
            &&& ({
                let h = sync.state.highest_mod_sequence;
                let start = answers.selected.highest_mod_seq;
                &&& h == start || exists|i: int|
                    0 <= i < answers.items@.len() && (#[trigger] answers.items@[i]).mod_seq == h
                &&& start is Some ==> h is Some && h->0 >= start->0
                &&& forall|i: int|
                    0 <= i < answers.items@.len() && (#[trigger] answers.items@[i]).mod_seq is Some
                        ==> h is Some && h->0 >= answers.items@[i].mod_seq->0
            })
        },
{
    messages_are_what_the_server_sent(account, mailbox, answers.items@);
    vanished_are_those_reported(answers.unsolicited@);
    latest_is_the_maximum(answers.selected.highest_mod_seq, answers.items@);
}

/// A synchronization fails exactly if the mailbox does not report its UID
/// validity, which is then the error, or if a response is incomplete, the first
/// of which then decides the error.
pub proof fn sync_fails_for_what_is_missing(
    account: Seq<char>,
    mailbox: Seq<char>,
    previous: Option<MailboxState>,
    answers: SyncAnswers,
    i: int,
)
    ensures
        answers.selected.uid_validity is None ==> imap::synchronized(
            account,
            mailbox,
            previous,
            answers,
        ) == Err::<imap::SyncModel, ReadErrorModel>(ReadErrorModel::UidValidityMissing { mailbox }),
        answers.selected.uid_validity is Some && 0 <= i < answers.items@.len() && !is_complete(
            answers.items@[i],
        ) && (forall|j: int| 0 <= j < i ==> is_complete(#[trigger] answers.items@[j]))
            ==> imap::synchronized(account, mailbox, previous, answers) == Err::<
            imap::SyncModel,
            ReadErrorModel,
        >(
            match answers.items@[i].uid {
                None => ReadErrorModel::UidOmitted,
                Some(uid) => ReadErrorModel::BodyMissing { uid },
            },
        ),
{
    if answers.selected.uid_validity is Some && 0 <= i < answers.items@.len() && !is_complete(
        answers.items@[i],
    ) && (forall|j: int| 0 <= j < i ==> is_complete(#[trigger] answers.items@[j])) {
        first_incomplete_response_is_reported(account, mailbox, answers.items@, i);
    }
}

/// The query for a whole mailbox asks for UIDs, flags, modification sequences and
/// bodies; the query for changes asks for the same and names the whole earlier
/// modification sequence.
pub proof fn sync_query_names_the_starting_point(n: u64)
    ensures
        imap::sync_query(None) == "(UID FLAGS MODSEQ BODY.PEEK[])"@,
        ({
            let q = imap::sync_query(Some(n));
            let digits = text::decimal(n as nat);
            &&& q.len() == 45 + digits.len() + 10
            &&& q.subrange(0, 30) == "(UID FLAGS MODSEQ BODY.PEEK[])"@
            &&& q.subrange(30, 45) == " (CHANGEDSINCE "@
            &&& q.subrange(45, 45 + digits.len() as int) == digits
            &&& q.skip(45 + digits.len() as int) == " VANISHED)"@
        }),
{
    reveal_strlit("(UID FLAGS MODSEQ BODY.PEEK[])");
    reveal_strlit("(UID FLAGS MODSEQ BODY.PEEK[]) (CHANGEDSINCE ");
    reveal_strlit(" (CHANGEDSINCE ");
    reveal_strlit(" VANISHED)");
    let q = imap::sync_query(Some(n));
    let digits = text::decimal(n as nat);
    assert(q.subrange(0, 30) =~= "(UID FLAGS MODSEQ BODY.PEEK[])"@);
    assert(q.subrange(30, 45) =~= " (CHANGEDSINCE "@);
    assert(q.subrange(45, 45 + digits.len() as int) =~= digits);
    assert(q.skip(45 + digits.len() as int) =~= " VANISHED)"@);
}

/// The commands of each run: the mailbox that was asked for is selected, and then
/// the UIDs of all messages, or the message with the UID that was asked for, are
/// fetched. Listing takes one command.
pub proof fn commands_follow_the_request(mailbox: Seq<char>, uid: u32)
    ensures
        imap::list_commands() == seq![CommandModel::List { reference: ""@, pattern: "*"@ }],
        imap::recent_commands(mailbox) == seq![
            CommandModel::Select { mailbox },
            CommandModel::UidFetch(FetchModel { uid_set: "1:*"@, query: "(UID)"@ }),
        ],
        imap::fetch_commands(mailbox, uid) == seq![
            CommandModel::Select { mailbox },
            CommandModel::UidFetch(
                FetchModel {
                    uid_set: text::decimal(uid as nat),
                    query: "(UID FLAGS MODSEQ RFC822.SIZE BODY.PEEK[])"@,
                },
            ),
        ],
{
}

/// The commands of a synchronization: the capabilities; QRESYNC, exactly if the
/// server offers it and an earlier modification sequence is there to start from;
/// the mailbox; and one fetch of all messages, exactly if the mailbox reports its
/// UID validity. The fetch is for changes since the earlier modification
/// sequence exactly if QRESYNC was granted under the same UID validity.
pub proof fn sync_commands_follow_the_request(
    mailbox: Seq<char>,
    previous: Option<MailboxState>,
    answers: SyncAnswers,
)
    ensures
        ({
            let commands = imap::sync_commands(mailbox, previous, answers);
            let wanted = answers.capabilities.qresync && answers.capabilities.enable && (
            previous matches Some(state) && state.highest_mod_sequence is Some);
            let delta = wanted && answers.enabled && (previous matches Some(state) && Some(
                state.uid_validity,
            ) == answers.selected.uid_validity);
            let n: int = if wanted {
                2
            } else {
                1
            };
            &&& commands.len() == n + 1 + if answers.selected.uid_validity is Some {
                1int
            } else {
                0int
            }
            &&& commands[0] == CommandModel::Capability
            &&& wanted ==> commands[1] == CommandModel::EnableQresync
            &&& commands[n] == (CommandModel::Select { mailbox })
            &&& answers.selected.uid_validity is Some ==> commands[n + 1] == CommandModel::UidFetch(
                FetchModel {
                    uid_set: "1:*"@,
                    query: imap::sync_query(
                        if delta {
                            previous->0.highest_mod_sequence
                        } else {
                            None
                        },
                    ),
                },
            )
        }),
{
}

/// What each stage decides: QRESYNC is wanted exactly if the server offers it and
/// an earlier modification sequence is there, and changes are asked for exactly if
/// it was granted and the UID validity is the same.
pub proof fn stages_decide_by_the_answers(
    capabilities: Capabilities,
    previous: Option<MailboxState>,
    granted: bool,
    uid_validity: u32,
)
    ensures
        imap::wants_qresync(capabilities, previous) <==> capabilities.qresync && capabilities.enable
            && (previous matches Some(state) && state.highest_mod_sequence is Some),
        imap::changes_since(granted, previous, uid_validity) matches Some(n) ==> granted && (
        previous matches Some(state) && state.uid_validity == uid_validity
            && state.highest_mod_sequence == Some(n)),
        imap::changes_since(granted, previous, uid_validity) is None ==> !granted || !(
        previous matches Some(state) && state.uid_validity == uid_validity
            && state.highest_mod_sequence is Some),
{
}

/// A command's model is that of the command: each keeps its kind, and what it
/// carries.
pub proof fn command_models_keep_their_kind(commands: Seq<Command>)
    ensures
        imap::command_models(commands).len() == commands.len(),
        forall|i: int|
            0 <= i < commands.len() ==> {
                let model = imap::command_models(commands)[i];
                match #[trigger] commands[i] {
                    Command::Capability => model is Capability,
                    Command::EnableQresync => model is EnableQresync,
                    Command::List => model == (CommandModel::List {
                        reference: ""@,
                        pattern: "*"@,
                    }),
                    Command::Select { mailbox } => model == (CommandModel::Select {
                        mailbox: mailbox@,
                    }),
                    Command::UidFetch(request) => model == CommandModel::UidFetch(request@),
                }
            },
{
}

/// The outcome of a retrieval is the message's model or the error's.
pub proof fn outcome_is_that_of_the_result(r: Result<FetchedMessage, ReadError>)
    ensures
        r matches Ok(m) ==> imap::message_outcome(r) == Ok::<MessageModel, ReadErrorModel>(m@),
        r matches Err(e) ==> imap::message_outcome(r) == Err::<MessageModel, ReadErrorModel>(e@),
{
}

} // verus!
