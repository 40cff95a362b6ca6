//! A small message broker that speaks a part of the NATS protocol: who is
//! subscribed to what, and what the bytes of a client ask for.
//!
//! Of the protocol it knows CONNECT, SUB, UNSUB, PUB, PING and the MSG frames
//! that it sends. In patterns `*` stands for one token and `>` for the rest.
use crate::decimal::parse_usize;
use crate::decimal::to_decimal;
use crate::framing::read_text;
use crate::framing::Inbox;
use crate::text::same_text;
use crate::text::split_at;
use crate::text::splitn_at;
use crate::text::starts_with;
use crate::text::to_uppercase;
use crate::text::trim;
use vstd::prelude::*;

verus! {

// ── Subjects ──────────────────────────────────────────────────────────────────

/// Whether the tokens of a pattern match those of a subject.
pub open spec fn tokens_match(pattern: Seq<Seq<char>>, subject: Seq<Seq<char>>) -> bool
    decreases pattern.len(),
{
    if pattern.len() == 0 {
        subject.len() == 0
    } else if pattern[0] == ">"@ {
        true
    } else {
        &&& subject.len() > 0
        &&& pattern[0] == "*"@ || pattern[0] == subject[0]
        &&& tokens_match(pattern.drop_first(), subject.drop_first())
    }
}

/// Whether a pattern matches a subject.
pub open spec fn matches_subject(pattern: Seq<char>, subject: Seq<char>) -> bool {
    tokens_match(crate::text::split(pattern, '.'), crate::text::split(subject, '.'))
}

/// Whether a pattern matches a subject.
pub fn subject_matches(pattern: &str, subject: &str) -> (r: bool)
    ensures
        r == matches_subject(pattern@, subject@),
{
    let pp = split_at(pattern, '.');
    let sp = split_at(subject, '.');
    let ghost p = crate::text::texts(pp@);
    let ghost s = crate::text::texts(sp@);
    let mut i: usize = 0;
    proof {
        assert(p.skip(0) =~= p);
        assert(s.skip(0) =~= s);
    }
    while i < pp.len()
        invariant
            p == crate::text::texts(pp@),
            s == crate::text::texts(sp@),
            p == crate::text::split(pattern@, '.'),
            s == crate::text::split(subject@, '.'),
            i <= p.len(),
            i <= s.len(),
            tokens_match(p.skip(i as int), s.skip(i as int)) == tokens_match(p, s),
        decreases p.len() - i,
    {
        proof {
            assert(p.skip(i as int)[0] == pp@[i as int]@);
            assert(p.skip(i as int).drop_first() =~= p.skip(i + 1));
        }
        if same_text(pp[i].as_str(), ">") {
            return true;
        }
        if i >= sp.len() {
            return false;
        }
        proof {
            assert(s.skip(i as int)[0] == sp@[i as int]@);
            assert(s.skip(i as int).drop_first() =~= s.skip(i + 1));
        }
        if !(same_text(pp[i].as_str(), "*") || same_text(pp[i].as_str(), sp[i].as_str())) {
            return false;
        }
        i = i + 1;
    }
    i == sp.len()
}

proof fn lemma_tokens_match_self(ts: Seq<Seq<char>>)
    ensures
        tokens_match(ts, ts),
    decreases ts.len(),
{
    if ts.len() > 0 {
        lemma_tokens_match_self(ts.drop_first());
    }
}

/// A pattern matches the subject that is written the same.
pub proof fn subject_matches_itself(subject: Seq<char>)
    ensures
        matches_subject(subject, subject),
{
    lemma_tokens_match_self(crate::text::split(subject, '.'));
}

/// No token is a wildcard.
pub open spec fn is_plain(tokens: Seq<Seq<char>>) -> bool {
    forall|i: int| 0 <= i < tokens.len() ==> #[trigger] tokens[i] != ">"@ && tokens[i] != "*"@
}

proof fn lemma_plain_tokens(p: Seq<Seq<char>>, s: Seq<Seq<char>>)
    requires
        is_plain(p),
    ensures
        tokens_match(p, s) == (p == s),
    decreases p.len(),
{
    if p.len() == 0 {
        if s.len() == 0 {
            assert(p =~= s);
        }
    } else {
        assert(p[0] != ">"@ && p[0] != "*"@);
        assert forall|i: int| 0 <= i < p.drop_first().len() implies #[trigger] p.drop_first()[i]
            != ">"@ && p.drop_first()[i] != "*"@ by {
            assert(p[i + 1] != ">"@);
        }
        if s.len() > 0 {
            lemma_plain_tokens(p.drop_first(), s.drop_first());
            if p[0] == s[0] && p.drop_first() == s.drop_first() {
                assert(p =~= seq![p[0]] + p.drop_first());
                assert(s =~= seq![s[0]] + s.drop_first());
            }
        }
    }
}

/// A pattern without wildcards matches the subject that is written the same and
/// no other.
pub proof fn plain_pattern_matches_itself_alone(pattern: Seq<char>, subject: Seq<char>)
    requires
        is_plain(crate::text::split(pattern, '.')),
    ensures
        matches_subject(pattern, subject) == (pattern == subject),
{
    let p = crate::text::split(pattern, '.');
    let s = crate::text::split(subject, '.');
    lemma_plain_tokens(p, s);
    if p == s {
        crate::text::split_injective(pattern, subject, '.');
    }
}

/// `*` stands for exactly one token, whatever it is.
pub proof fn star_stands_for_one_token(
    before: Seq<Seq<char>>,
    token: Seq<char>,
    after: Seq<Seq<char>>,
)
    ensures
        tokens_match(before + seq!["*"@] + after, before + seq![token] + after),
        is_plain(before) && is_plain(after) ==> !tokens_match(
            before + seq!["*"@] + after,
            before + after,
        ),
    decreases before.len(),
{
    let p = before + seq!["*"@] + after;
    let s = before + seq![token] + after;
    if before.len() == 0 {
        assert(p.drop_first() =~= after);
        assert(s.drop_first() =~= after);
        lemma_tokens_match_self(after);
        assert(before + after =~= after);
        reveal_strlit("*");
        reveal_strlit(">");
        assert("*"@[0] != ">"@[0]);
        if is_plain(after) {
            if tokens_match(p, after) {
                lemma_match_lengths(p, after);
            }
        }
    } else {
        let b = before.drop_first();
        assert(p.drop_first() =~= b + seq!["*"@] + after);
        assert(s.drop_first() =~= b + seq![token] + after);
        assert((before + after).drop_first() =~= b + after);
        star_stands_for_one_token(b, token, after);
        if is_plain(before) {
            assert(before[0] != ">"@);
            assert forall|i: int| 0 <= i < b.len() implies #[trigger] b[i] != ">"@ && b[i]
                != "*"@ by {
                assert(before[i + 1] != ">"@);
            }
        }
    }
}

proof fn lemma_match_lengths(p: Seq<Seq<char>>, s: Seq<Seq<char>>)
    requires
        tokens_match(p, s),
        forall|i: int| 0 <= i < p.len() ==> #[trigger] p[i] != ">"@,
    ensures
        p.len() == s.len(),
    decreases p.len(),
{
    if p.len() > 0 {
        assert(p[0] != ">"@);
        assert forall|i: int| 0 <= i < p.drop_first().len() implies #[trigger] p.drop_first()[i]
            != ">"@ by {
            assert(p[i + 1] != ">"@);
        }
        lemma_match_lengths(p.drop_first(), s.drop_first());
    }
}

/// `>` stands for the rest of a subject, whatever it is.
pub proof fn rest_wildcard_matches_any_rest(before: Seq<Seq<char>>, rest: Seq<Seq<char>>)
    ensures
        tokens_match(before + seq![">"@], before + rest),
    decreases before.len(),
{
    let p = before + seq![">"@];
    if before.len() > 0 {
        assert(p.drop_first() =~= before.drop_first() + seq![">"@]);
        assert((before + rest).drop_first() =~= before.drop_first() + rest);
        rest_wildcard_matches_any_rest(before.drop_first(), rest);
    }
}

// ── Frames ────────────────────────────────────────────────────────────────────

/// The bytes of a text.
pub open spec fn bytes_of(s: Seq<char>) -> Seq<u8> {
    vstd::utf8::encode_utf8(s)
}

/// The end of a line.
pub open spec fn crlf() -> Seq<char> {
    "\r\n"@
}

/// The first line of a message to a subscriber.
pub open spec fn msg_header(subject: Seq<char>, sid: Seq<char>, len: nat) -> Seq<char> {
    "MSG "@ + subject + " "@ + sid + " "@ + crate::decimal::decimal(len)
}

/// A message to a subscriber.
pub open spec fn msg_frame(subject: Seq<char>, sid: Seq<char>, payload: Seq<u8>) -> Seq<u8> {
    bytes_of(msg_header(subject, sid, payload.len()) + crlf()) + payload + bytes_of(crlf())
}

/// Appends the bytes of a text.
pub fn push_text(out: &mut Vec<u8>, text: &str)
    ensures
        final(out)@ == old(out)@ + bytes_of(text@),
{
    let bytes = text.as_bytes();
    push_bytes(out, bytes);
}

/// Appends bytes.
pub fn push_bytes(out: &mut Vec<u8>, bytes: &[u8])
    ensures
        final(out)@ == old(out)@ + bytes@,
{
    let ghost start = out@;
    let mut i: usize = 0;
    proof {
        assert(start + bytes@.take(0) =~= start);
    }
    while i < bytes.len()
        invariant
            i <= bytes@.len(),
            out@ == start + bytes@.take(i as int),
        decreases bytes@.len() - i,
    {
        out.push(bytes[i]);
        proof {
            assert(start + bytes@.take(i + 1) =~= (start + bytes@.take(i as int)).push(
                bytes@[i as int],
            ));
        }
        i = i + 1;
    }
    proof {
        assert(bytes@.take(bytes@.len() as int) =~= bytes@);
    }
}

/// A message to a subscriber.
pub fn message_frame(subject: &str, sid: &str, payload: &[u8]) -> (f: Vec<u8>)
    ensures
        f@ == msg_frame(subject@, sid@, payload@),
{
    let mut header = "MSG ".to_string();
    header.append(subject);
    header.append(" ");
    header.append(sid);
    header.append(" ");
    let number = to_decimal(payload.len() as u128);
    header.append(number.as_str());
    header.append("\r\n");
    let mut f: Vec<u8> = Vec::new();
    push_text(&mut f, header.as_str());
    push_bytes(&mut f, payload);
    push_text(&mut f, "\r\n");
    proof {
        assert(f@ =~= msg_frame(subject@, sid@, payload@));
    }
    f
}

/// What a new client is told.
pub open spec fn info_banner() -> Seq<char> {
    "INFO {\"server_id\":\"LOADPILOT\",\"version\":\"2.10.0\",\"host\":\"0.0.0.0\",\"port\":4222,\"max_payload\":1048576,\"proto\":1,\"auth_required\":false,\"tls_required\":false}\r\n"@
}

/// What a new client is told.
pub fn hello() -> (f: Vec<u8>)
    ensures
        f@ == bytes_of(info_banner()),
{
    let mut f: Vec<u8> = Vec::new();
    push_text(
        &mut f,
        "INFO {\"server_id\":\"LOADPILOT\",\"version\":\"2.10.0\",\"host\":\"0.0.0.0\",\"port\":4222,\"max_payload\":1048576,\"proto\":1,\"auth_required\":false,\"tls_required\":false}\r\n",
    );
    proof {
        assert(f@ =~= bytes_of(info_banner()));
    }
    f
}

/// The answer to a ping.
pub fn pong() -> (f: Vec<u8>)
    ensures
        f@ == bytes_of("PONG\r\n"@),
{
    let mut f: Vec<u8> = Vec::new();
    push_text(&mut f, "PONG\r\n");
    proof {
        assert(f@ =~= bytes_of("PONG\r\n"@));
    }
    f
}

// ── Subscriptions ─────────────────────────────────────────────────────────────

/// A subscription of a client.
#[derive(Debug)]
pub struct Sub {
    pub pattern: String,
    pub client: u64,
    pub sid: String,
}

/// A message on its way to a client.
#[derive(Debug)]
pub struct Delivery {
    pub client: u64,
    pub frame: Vec<u8>,
}

/// Where a published message goes.
#[derive(Debug)]
pub struct Deliveries {
    /// Frames for clients.
    pub clients: Vec<Delivery>,
    /// The subscribers of the same process; they get the bare payload.
    pub internal: Vec<usize>,
}

/// What the broker knows.
#[derive(Debug)]
pub struct State {
    pub next_id: u64,
    /// Subscriptions of clients.
    pub client_subs: Vec<Sub>,
    /// The patterns of subscribers of the same process.
    pub internal_subs: Vec<String>,
}

/// A subscription without its storage.
#[verifier::ext_equal]
pub struct SubModel {
    pub pattern: Seq<char>,
    pub client: u64,
    pub sid: Seq<char>,
}

/// What the broker knows, without its storage.
#[verifier::ext_equal]
pub struct StateModel {
    pub next_id: u64,
    pub client_subs: Seq<SubModel>,
    pub internal_subs: Seq<Seq<char>>,
}

impl View for Sub {
    type V = SubModel;

    open spec fn view(&self) -> SubModel {
        SubModel { pattern: self.pattern@, client: self.client, sid: self.sid@ }
    }
}

impl View for State {
    type V = StateModel;

    open spec fn view(&self) -> StateModel {
        StateModel {
            next_id: self.next_id,
            client_subs: self.client_subs@.map_values(|s: Sub| s@),
            internal_subs: crate::text::texts(self.internal_subs@),
        }
    }
}

/// The subscriptions without those of `client` under `sid`.
pub open spec fn without_sub(subs: Seq<SubModel>, client: u64, sid: Seq<char>) -> Seq<SubModel>
    decreases subs.len(),
{
    if subs.len() == 0 {
        seq![]
    } else if subs.last().client == client && subs.last().sid == sid {
        without_sub(subs.drop_last(), client, sid)
    } else {
        without_sub(subs.drop_last(), client, sid).push(subs.last())
    }
}

/// The subscriptions without those of `client`.
pub open spec fn without_client(subs: Seq<SubModel>, client: u64) -> Seq<SubModel>
    decreases subs.len(),
{
    if subs.len() == 0 {
        seq![]
    } else if subs.last().client == client {
        without_client(subs.drop_last(), client)
    } else {
        without_client(subs.drop_last(), client).push(subs.last())
    }
}

/// The frames that a message to `subject` sends to clients, in the order of
/// their subscriptions.
pub open spec fn frames_for(subs: Seq<SubModel>, subject: Seq<char>, payload: Seq<u8>) -> Seq<
    (u64, Seq<u8>),
>
    decreases subs.len(),
{
    if subs.len() == 0 {
        seq![]
    } else if matches_subject(subs.last().pattern, subject) {
        frames_for(subs.drop_last(), subject, payload).push(
            (subs.last().client, msg_frame(subject, subs.last().sid, payload)),
        )
    } else {
        frames_for(subs.drop_last(), subject, payload)
    }
}

/// The subscribers of the same process that a message to `subject` reaches.
pub open spec fn internal_for(patterns: Seq<Seq<char>>, subject: Seq<char>) -> Seq<usize>
    decreases patterns.len(),
{
    if patterns.len() == 0 {
        seq![]
    } else if matches_subject(patterns.last(), subject) {
        internal_for(patterns.drop_last(), subject).push((patterns.len() - 1) as usize)
    } else {
        internal_for(patterns.drop_last(), subject)
    }
}

/// The frames without their storage.
pub open spec fn delivered(ds: Seq<Delivery>) -> Seq<(u64, Seq<u8>)> {
    ds.map_values(|d: Delivery| (d.client, d.frame@))
}

/// `d` is where a message goes.
pub open spec fn delivers(d: Deliveries, m: StateModel, subject: Seq<char>, payload: Seq<u8>) -> bool {
    &&& delivered(d.clients@) == frames_for(m.client_subs, subject, payload)
    &&& d.internal@ == internal_for(m.internal_subs, subject)
}

impl State {
    /// A broker without clients.
    pub fn new() -> (s: State)
        ensures
            s@ == (StateModel { next_id: 0, client_subs: seq![], internal_subs: seq![] }),
    {
        let s = State { next_id: 0, client_subs: Vec::new(), internal_subs: Vec::new() };
        proof {
            assert(s@.client_subs =~= seq![]);
            assert(s@.internal_subs =~= seq![]);
        }
        s
    }

    /// A number for a new client.
    pub fn alloc_id(&mut self) -> (id: u64)
        requires
            old(self).next_id < u64::MAX,
        ensures
            id == old(self).next_id + 1,
            final(self)@ == (StateModel { next_id: id, ..old(self)@ }),
    {
        self.next_id = self.next_id + 1;
        self.next_id
    }

    /// Subscribes a client.
    pub fn subscribe_client(&mut self, pattern: String, client: u64, sid: String)
        ensures
            final(self)@ == (StateModel {
                client_subs: old(self)@.client_subs.push(
                    SubModel { pattern: pattern@, client, sid: sid@ },
                ),
                ..old(self)@
            }),
    {
        let ghost m = SubModel { pattern: pattern@, client, sid: sid@ };
        self.client_subs.push(Sub { pattern, client, sid });
        proof {
            assert(self@.client_subs =~= old(self)@.client_subs.push(m));
        }
    }

    /// Subscribes a part of the same process. Its number counts from 0.
    pub fn subscribe_internal(&mut self, pattern: String) -> (id: usize)
        ensures
            id == old(self)@.internal_subs.len(),
            final(self)@ == (StateModel {
                internal_subs: old(self)@.internal_subs.push(pattern@),
                ..old(self)@
            }),
    {
        let id: usize = self.internal_subs.len();
        let ghost p = pattern@;
        self.internal_subs.push(pattern);
        proof {
            assert(self@.internal_subs =~= old(self)@.internal_subs.push(p));
        }
        id
    }

    /// Ends the subscriptions of a client under `sid`.
    pub fn unsubscribe(&mut self, client: u64, sid: &str)
        ensures
            final(self)@ == (StateModel {
                client_subs: without_sub(old(self)@.client_subs, client, sid@),
                ..old(self)@
            }),
    {
        let ghost subs = self@.client_subs;
        let mut kept: Vec<Sub> = Vec::new();
        let mut i: usize = 0;
        proof {
            assert(subs.take(0) =~= Seq::<SubModel>::empty());
            assert(kept@.map_values(|s: Sub| s@) =~= Seq::<SubModel>::empty());
        }
        while i < self.client_subs.len()
            invariant
                subs == self.client_subs@.map_values(|s: Sub| s@),
                i <= subs.len(),
                kept@.map_values(|s: Sub| s@) == without_sub(subs.take(i as int), client, sid@),
            decreases subs.len() - i,
        {
            let sub = &self.client_subs[i];
            proof {
                assert(subs.take(i + 1).drop_last() =~= subs.take(i as int));
                assert(subs.take(i + 1).last() == sub@);
            }
            if !(sub.client == client && same_text(sub.sid.as_str(), sid)) {
                let ghost before = kept@;
                let copy = Sub {
                    pattern: sub.pattern.clone(),
                    client: sub.client,
                    sid: sub.sid.clone(),
                };
                let ghost c = copy;
                kept.push(copy);
                proof {
                    assert(kept@.map_values(|s: Sub| s@) =~= before.map_values(|s: Sub| s@).push(
                        c@,
                    ));
                }
            }
            i = i + 1;
        }
        proof {
            assert(subs.take(subs.len() as int) =~= subs);
        }
        self.client_subs = kept;
    }

    /// Ends all subscriptions of a client.
    pub fn disconnect(&mut self, client: u64)
        ensures
            final(self)@ == (StateModel {
                client_subs: without_client(old(self)@.client_subs, client),
                ..old(self)@
            }),
    {
        let ghost subs = self@.client_subs;
        let mut kept: Vec<Sub> = Vec::new();
        let mut i: usize = 0;
        proof {
            assert(subs.take(0) =~= Seq::<SubModel>::empty());
            assert(kept@.map_values(|s: Sub| s@) =~= Seq::<SubModel>::empty());
        }
        while i < self.client_subs.len()
            invariant
                subs == self.client_subs@.map_values(|s: Sub| s@),
                i <= subs.len(),
                kept@.map_values(|s: Sub| s@) == without_client(subs.take(i as int), client),
            decreases subs.len() - i,
        {
            let sub = &self.client_subs[i];
            proof {
                assert(subs.take(i + 1).drop_last() =~= subs.take(i as int));
                assert(subs.take(i + 1).last() == sub@);
            }
            if sub.client != client {
                let ghost before = kept@;
                let copy = Sub {
                    pattern: sub.pattern.clone(),
                    client: sub.client,
                    sid: sub.sid.clone(),
                };
                let ghost c = copy;
                kept.push(copy);
                proof {
                    assert(kept@.map_values(|s: Sub| s@) =~= before.map_values(|s: Sub| s@).push(
                        c@,
                    ));
                }
            }
            i = i + 1;
        }
        proof {
            assert(subs.take(subs.len() as int) =~= subs);
        }
        self.client_subs = kept;
    }

    /// Where a message to `subject` goes.
    pub fn publish(&self, subject: &str, payload: &[u8]) -> (d: Deliveries)
        ensures
            delivers(d, self@, subject@, payload@),
    {
        let ghost subs = self@.client_subs;
        let mut clients: Vec<Delivery> = Vec::new();
        let mut i: usize = 0;
        proof {
            assert(subs.take(0) =~= Seq::<SubModel>::empty());
            assert(delivered(clients@) =~= Seq::<(u64, Seq<u8>)>::empty());
        }
        while i < self.client_subs.len()
            invariant
                subs == self.client_subs@.map_values(|s: Sub| s@),
                i <= subs.len(),
                delivered(clients@) == frames_for(subs.take(i as int), subject@, payload@),
            decreases subs.len() - i,
        {
            let sub = &self.client_subs[i];
            proof {
                assert(subs.take(i + 1).drop_last() =~= subs.take(i as int));
                assert(subs.take(i + 1).last() == sub@);
            }
            if subject_matches(sub.pattern.as_str(), subject) {
                let ghost before = clients@;
                let frame = message_frame(subject, sub.sid.as_str(), payload);
                let d = Delivery { client: sub.client, frame };
                let ghost dd = d;
                clients.push(d);
                proof {
                    assert(delivered(clients@) =~= delivered(before).push(
                        (dd.client, dd.frame@),
                    ));
                }
            }
            i = i + 1;
        }
        let ghost patterns = self@.internal_subs;
        let mut internal: Vec<usize> = Vec::new();
        let mut j: usize = 0;
        proof {
            assert(subs.take(subs.len() as int) =~= subs);
            assert(patterns.take(0) =~= Seq::<Seq<char>>::empty());
        }
        while j < self.internal_subs.len()
            invariant
                patterns == crate::text::texts(self.internal_subs@),
                j <= patterns.len(),
                internal@ == internal_for(patterns.take(j as int), subject@),
            decreases patterns.len() - j,
        {
            proof {
                assert(patterns.take(j + 1).drop_last() =~= patterns.take(j as int));
                assert(patterns.take(j + 1).last() == self.internal_subs@[j as int]@);
            }
            if subject_matches(self.internal_subs[j].as_str(), subject) {
                internal.push(j);
            }
            j = j + 1;
        }
        proof {
            assert(patterns.take(patterns.len() as int) =~= patterns);
        }
        Deliveries { clients, internal }
    }
}

// ── Commands of a client ──────────────────────────────────────────────────────

/// What a line of a client asks for.
#[derive(Debug)]
pub enum Command {
    Connect,
    Ping,
    Subscribe { subject: String, sid: String },
    Unsubscribe { sid: String },
    /// A payload of this many bytes follows.
    Publish { subject: String, len: usize },
    /// Nothing that the broker knows, or something incomplete.
    Ignored,
}

/// What a line of a client asks for, without its storage.
#[verifier::ext_equal]
pub enum CommandModel {
    Connect,
    Ping,
    Subscribe { subject: Seq<char>, sid: Seq<char> },
    Unsubscribe { sid: Seq<char> },
    Publish { subject: Seq<char>, len: nat },
    Ignored,
}

impl View for Command {
    type V = CommandModel;

    open spec fn view(&self) -> CommandModel {
        match self {
            Command::Connect => CommandModel::Connect,
            Command::Ping => CommandModel::Ping,
            Command::Subscribe { subject, sid } => CommandModel::Subscribe {
                subject: subject@,
                sid: sid@,
            },
            Command::Unsubscribe { sid } => CommandModel::Unsubscribe { sid: sid@ },
            Command::Publish { subject, len } => CommandModel::Publish {
                subject: subject@,
                len: *len as nat,
            },
            Command::Ignored => CommandModel::Ignored,
        }
    }
}

/// A length as a text gives it: 0 where it is no number.
pub open spec fn length_of(s: Seq<char>) -> nat {
    match crate::decimal::parsed(s, usize::MAX as nat) {
        Some(n) => n,
        None => 0,
    }
}

/// `SUB <subject> [queue-group] <sid>`.
pub open spec fn sub_command(line: Seq<char>) -> CommandModel {
    let parts = crate::text::splitn(line, 4, ' ');
    if parts.len() >= 3 {
        CommandModel::Subscribe { subject: parts[1], sid: parts.last() }
    } else {
        CommandModel::Ignored
    }
}

/// `UNSUB <sid> [max-msgs]`.
pub open spec fn unsub_command(line: Seq<char>) -> CommandModel {
    let parts = crate::text::splitn(line, 3, ' ');
    if parts.len() >= 2 {
        CommandModel::Unsubscribe { sid: parts[1] }
    } else {
        CommandModel::Ignored
    }
}

/// `PUB <subject> <#bytes>`.
pub open spec fn pub_command(line: Seq<char>) -> CommandModel {
    let parts = crate::text::splitn(line, 3, ' ');
    if parts.len() >= 3 {
        CommandModel::Publish { subject: parts[1], len: length_of(parts[2]) }
    } else {
        CommandModel::Ignored
    }
}

/// What a line asks for, given the line without white space around it and its
/// upper-case form.
pub open spec fn command_of(upper: Seq<char>, line: Seq<char>) -> CommandModel {
    if crate::text::begins_with(upper, "CONNECT"@) {
        CommandModel::Connect
    } else if crate::text::begins_with(upper, "PING"@) {
        CommandModel::Ping
    } else if crate::text::begins_with(upper, "SUB"@) {
        sub_command(line)
    } else if crate::text::begins_with(upper, "UNSUB"@) {
        unsub_command(line)
    } else if crate::text::begins_with(upper, "PUB"@) {
        pub_command(line)
    } else {
        CommandModel::Ignored
    }
}

/// A length as a text gives it.
pub fn parse_length(s: &str) -> (n: usize)
    ensures
        n == length_of(s@),
{
    match parse_usize(s) {
        Some(n) => n,
        None => 0,
    }
}

/// What a line asks for, given the line without white space around it and its
/// upper-case form.
pub fn read_command(upper: &str, line: &str) -> (c: Command)
    ensures
        c@ == command_of(upper@, line@),
{
    if starts_with(upper, "CONNECT") {
        Command::Connect
    } else if starts_with(upper, "PING") {
        Command::Ping
    } else if starts_with(upper, "SUB") {
        let parts = splitn_at(line, 4, ' ');
        let ghost texts = crate::text::texts(parts@);
        if parts.len() >= 3 {
            proof {
                assert(texts[1] == parts@[1]@);
                assert(texts.last() == parts@[parts@.len() - 1]@);
            }
            Command::Subscribe { subject: parts[1].clone(), sid: parts[parts.len() - 1].clone() }
        } else {
            Command::Ignored
        }
    } else if starts_with(upper, "UNSUB") {
        let parts = splitn_at(line, 3, ' ');
        let ghost texts = crate::text::texts(parts@);
        if parts.len() >= 2 {
            proof {
                assert(texts[1] == parts@[1]@);
            }
            Command::Unsubscribe { sid: parts[1].clone() }
        } else {
            Command::Ignored
        }
    } else if starts_with(upper, "PUB") {
        let parts = splitn_at(line, 3, ' ');
        let ghost texts = crate::text::texts(parts@);
        if parts.len() >= 3 {
            proof {
                assert(texts[1] == parts@[1]@);
                assert(texts[2] == parts@[2]@);
            }
            Command::Publish { subject: parts[1].clone(), len: parse_length(parts[2].as_str()) }
        } else {
            Command::Ignored
        }
    } else {
        Command::Ignored
    }
}

/// What a line asks for, given the line without white space around it. A line
/// that begins with one of the words, in any letter case, asks for that; of any
/// other the upper-case form decides.
pub open spec fn asked_by(line: Seq<char>) -> CommandModel {
    if crate::text::begins_with_word(line, "CONNECT"@) {
        CommandModel::Connect
    } else if crate::text::begins_with_word(line, "PING"@) {
        CommandModel::Ping
    } else if crate::text::begins_with_word(line, "SUB"@) {
        sub_command(line)
    } else if crate::text::begins_with_word(line, "UNSUB"@) {
        unsub_command(line)
    } else if crate::text::begins_with_word(line, "PUB"@) {
        pub_command(line)
    } else {
        command_of(crate::text::uppercase(line), line)
    }
}

/// What a line of a client asks for. The command word counts in any letter case.
pub fn parse_command(line: &str) -> (c: Command)
    ensures
        c@ == asked_by(crate::text::trimmed(line@)),
        c@ == command_of(
            crate::text::uppercase(crate::text::trimmed(line@)),
            crate::text::trimmed(line@),
        ),
        crate::text::upper_form(
            crate::text::trimmed(line@),
            crate::text::uppercase(crate::text::trimmed(line@)),
        ),
{
    let line = trim(line);
    let upper = to_uppercase(line.as_str());
    proof {
        first_word_decides(line@, upper@);
    }
    read_command(upper.as_str(), line.as_str())
}

/// A word at the start of a line, in any letter case, is there in upper case.
pub proof fn upper_case_keeps_words(line: Seq<char>, upper: Seq<char>, word: Seq<char>)
    requires
        crate::text::upper_form(line, upper),
        crate::text::begins_with_word(line, word),
    ensures
        crate::text::begins_with(upper, word),
{
    let k = word.len() as int;
    assert(upper.take(k) == crate::text::ascii_uppercase(line.take(k)));
}

/// An upper-case ASCII word.
pub open spec fn is_upper_word(word: Seq<char>) -> bool {
    forall|j: int| 0 <= j < word.len() ==> 'A' <= #[trigger] word[j] <= 'Z'
}

/// A line that begins with an upper-case word begins with it in any letter case.
pub proof fn upper_words_count(line: Seq<char>, word: Seq<char>)
    requires
        is_upper_word(word),
        crate::text::begins_with(line, word),
    ensures
        crate::text::begins_with_word(line, word),
{
    let k = word.len() as int;
    assert forall|j: int| 0 <= j < k implies line.take(k)[j] <= '\u{7f}' by {
        assert('A' <= word[j] <= 'Z');
    }
    assert(crate::text::ascii_uppercase(line.take(k)) =~= word) by {
        assert forall|j: int| 0 <= j < k implies crate::text::ascii_upper(line.take(k)[j])
            == word[j] by {
            assert('A' <= word[j] <= 'Z');
        }
    }
}

/// The word at the start of a line decides what the line asks for, in any letter
/// case.
pub proof fn first_word_decides(line: Seq<char>, upper: Seq<char>)
    requires
        crate::text::upper_form(line, upper),
    ensures
        crate::text::begins_with_word(line, "CONNECT"@) ==> command_of(upper, line) == CommandModel::Connect,
        crate::text::begins_with_word(line, "PING"@) ==> command_of(upper, line) == CommandModel::Ping,
        crate::text::begins_with_word(line, "SUB"@) ==> command_of(upper, line) == sub_command(line),
        crate::text::begins_with_word(line, "UNSUB"@) ==> command_of(upper, line) == unsub_command(line),
        crate::text::begins_with_word(line, "PUB"@) ==> command_of(upper, line) == pub_command(line),
{
    reveal_strlit("CONNECT");
    reveal_strlit("PING");
    reveal_strlit("SUB");
    reveal_strlit("UNSUB");
    reveal_strlit("PUB");
    if crate::text::begins_with_word(line, "CONNECT"@) {
        upper_case_keeps_words(line, upper, "CONNECT"@);
    }
    if crate::text::begins_with_word(line, "PING"@) {
        upper_case_keeps_words(line, upper, "PING"@);
        assert(upper.take(4)[0] == 'P');
        lemma_other_start(upper, "CONNECT"@, 'P');
    }
    if crate::text::begins_with_word(line, "SUB"@) {
        upper_case_keeps_words(line, upper, "SUB"@);
        assert(upper.take(3)[0] == 'S');
        lemma_other_start(upper, "CONNECT"@, 'S');
        lemma_other_start(upper, "PING"@, 'S');
    }
    if crate::text::begins_with_word(line, "UNSUB"@) {
        upper_case_keeps_words(line, upper, "UNSUB"@);
        assert(upper.take(5)[0] == 'U');
        lemma_other_start(upper, "CONNECT"@, 'U');
        lemma_other_start(upper, "PING"@, 'U');
        lemma_other_start(upper, "SUB"@, 'U');
    }
    if crate::text::begins_with_word(line, "PUB"@) {
        upper_case_keeps_words(line, upper, "PUB"@);
        assert(upper.take(3)[0] == 'P');
        assert(upper.take(3)[1] == 'U');
        lemma_other_start(upper, "CONNECT"@, 'P');
        lemma_other_start(upper, "SUB"@, 'P');
        lemma_other_start(upper, "UNSUB"@, 'P');
        if crate::text::begins_with(upper, "PING"@) {
            assert(upper.take(4)[1] == 'I');
        }
    }
}

proof fn lemma_other_start(upper: Seq<char>, word: Seq<char>, c: char)
    requires
        upper.len() > 0,
        upper[0] == c,
        word.len() > 0,
        word[0] != c,
    ensures
        !crate::text::begins_with(upper, word),
{
    if crate::text::begins_with(upper, word) {
        assert(upper.take(word.len() as int)[0] == upper[0]);
    }
}

// ── A client's session ────────────────────────────────────────────────────────

/// What the next bytes of a client are.
#[derive(Debug)]
pub enum Reading {
    /// A line with a command.
    Command,
    /// The payload of a message, of `len` bytes.
    Payload { subject: String, len: usize },
    /// Nothing more is read: the client sent a line that is no text.
    Closed,
}

/// What the next bytes of a client are, without its storage.
#[verifier::ext_equal]
pub enum ReadingModel {
    Command,
    Payload { subject: Seq<char>, len: nat },
    Closed,
}

/// The connection of a client.
#[derive(Debug)]
pub struct Session {
    pub client: u64,
    pub reading: Reading,
    /// What the client has sent and was not read yet.
    pub inbox: Inbox,
}

/// The connection of a client, without its storage.
#[verifier::ext_equal]
pub struct SessionModel {
    pub client: u64,
    pub reading: ReadingModel,
    pub unread: Seq<u8>,
}

/// What a line or a payload leads to.
#[derive(Debug)]
pub enum Outcome {
    /// Nothing to send.
    Silent,
    /// A frame for the client itself.
    Reply { frame: Vec<u8> },
    /// A message for subscribers.
    Publish { payload: Vec<u8>, deliveries: Deliveries },
    /// The connection ends.
    Close,
}

/// What a line or a payload leads to, without its storage.
#[verifier::ext_equal]
pub enum OutcomeModel {
    Silent,
    Reply { frame: Seq<u8> },
    Publish { payload: Seq<u8>, clients: Seq<(u64, Seq<u8>)>, internal: Seq<usize> },
    Close,
}

impl View for Reading {
    type V = ReadingModel;

    open spec fn view(&self) -> ReadingModel {
        match self {
            Reading::Command => ReadingModel::Command,
            Reading::Payload { subject, len } => ReadingModel::Payload {
                subject: subject@,
                len: *len as nat,
            },
            Reading::Closed => ReadingModel::Closed,
        }
    }
}

impl View for Session {
    type V = SessionModel;

    open spec fn view(&self) -> SessionModel {
        SessionModel { client: self.client, reading: self.reading@, unread: self.inbox@ }
    }
}

impl View for Outcome {
    type V = OutcomeModel;

    open spec fn view(&self) -> OutcomeModel {
        match self {
            Outcome::Silent => OutcomeModel::Silent,
            Outcome::Reply { frame } => OutcomeModel::Reply { frame: frame@ },
            Outcome::Publish { payload, deliveries } => OutcomeModel::Publish {
                payload: payload@,
                clients: delivered(deliveries.clients@),
                internal: deliveries.internal@,
            },
            Outcome::Close => OutcomeModel::Close,
        }
    }
}

/// A session and the broker after one line or payload, and what it led to.
#[verifier::ext_equal]
pub struct StepModel {
    pub session: SessionModel,
    pub state: StateModel,
    pub outcome: OutcomeModel,
}

/// What a command leads to: subscriptions change, a ping is answered, and a
/// message waits for its payload.
pub open spec fn obeyed(s: SessionModel, m: StateModel, c: CommandModel) -> StepModel {
    StepModel {
        session: SessionModel {
            reading: match c {
                CommandModel::Publish { subject, len } => ReadingModel::Payload { subject, len },
                _ => ReadingModel::Command,
            },
            ..s
        },
        state: match c {
            CommandModel::Subscribe { subject, sid } => StateModel {
                client_subs: m.client_subs.push(
                    SubModel { pattern: subject, client: s.client, sid },
                ),
                ..m
            },
            CommandModel::Unsubscribe { sid } => StateModel {
                client_subs: without_sub(m.client_subs, s.client, sid),
                ..m
            },
            _ => m,
        },
        outcome: match c {
            CommandModel::Ping => OutcomeModel::Reply { frame: bytes_of("PONG\r\n"@) },
            _ => OutcomeModel::Silent,
        },
    }
}

/// What a line leads to. One that is no text ends the connection, and what came
/// with it is dropped.
pub open spec fn line_read(s: SessionModel, m: StateModel, line: Seq<u8>) -> StepModel {
    match crate::framing::text_of(line) {
        Some(text) => obeyed(s, m, asked_by(crate::text::trimmed(text))),
        None => StepModel {
            session: SessionModel { reading: ReadingModel::Closed, unread: seq![], ..s },
            state: m,
            outcome: OutcomeModel::Close,
        },
    }
}

/// What the payload of a message leads to: it goes to those who subscribed.
pub open spec fn payload_read(
    s: SessionModel,
    m: StateModel,
    subject: Seq<char>,
    payload: Seq<u8>,
) -> StepModel {
    StepModel {
        session: SessionModel { reading: ReadingModel::Command, ..s },
        state: m,
        outcome: OutcomeModel::Publish {
            payload,
            clients: frames_for(m.client_subs, subject, payload),
            internal: internal_for(m.internal_subs, subject),
        },
    }
}

/// A whole line, or a whole payload where one is due, has come in.
pub open spec fn can_read(s: SessionModel) -> bool {
    match s.reading {
        ReadingModel::Command => crate::framing::has_line(s.unread),
        ReadingModel::Payload { subject, len } => crate::framing::has_payload(s.unread, len),
        ReadingModel::Closed => false,
    }
}

/// What the next line or payload leads to.
pub open spec fn read_one(s: SessionModel, m: StateModel) -> StepModel {
    match s.reading {
        ReadingModel::Command => line_read(
            SessionModel { unread: crate::framing::after_line(s.unread), ..s },
            m,
            crate::framing::first_line(s.unread),
        ),
        ReadingModel::Payload { subject, len } => payload_read(
            SessionModel { unread: crate::framing::after_payload(s.unread, len), ..s },
            m,
            subject,
            s.unread.take(len as int),
        ),
        ReadingModel::Closed => StepModel { session: s, state: m, outcome: OutcomeModel::Silent },
    }
}

/// A session and the broker after all that could be read, and what each line and
/// payload led to, in order.
#[verifier::ext_equal]
pub struct ServedModel {
    pub session: SessionModel,
    pub state: StateModel,
    pub outcomes: Seq<OutcomeModel>,
}

/// What all lines and payloads that have come in lead to, one after the other.
pub open spec fn served(s: SessionModel, m: StateModel) -> ServedModel
    decreases s.unread.len(),
{
    if can_read(s) {
        let one = read_one(s, m);
        let rest = served(one.session, one.state);
        ServedModel {
            session: rest.session,
            state: rest.state,
            outcomes: seq![one.outcome] + rest.outcomes,
        }
    } else {
        ServedModel { session: s, state: m, outcomes: seq![] }
    }
}

/// The session with more input. A closed one takes none.
pub open spec fn with_input(s: SessionModel, input: Seq<u8>) -> SessionModel {
    if s.reading is Closed {
        s
    } else {
        SessionModel { unread: s.unread + input, ..s }
    }
}

/// What the end of the input leads to, if something is left unread: a last line
/// needs no end, and of a last payload counts what is there.
pub open spec fn read_last(s: SessionModel, m: StateModel) -> Option<StepModel> {
    let emptied = SessionModel { unread: seq![], ..s };
    if s.unread.len() == 0 {
        None
    } else {
        match s.reading {
            ReadingModel::Command => Some(line_read(emptied, m, s.unread)),
            ReadingModel::Payload { subject, len } => Some(
                payload_read(emptied, m, subject, crate::framing::at_most(s.unread, len)),
            ),
            ReadingModel::Closed => None,
        }
    }
}

/// The outcomes without their storage.
pub open spec fn outcomes(os: Seq<Outcome>) -> Seq<OutcomeModel> {
    os.map_values(|o: Outcome| o@)
}

impl Session {
    /// The session of a new client.
    pub fn new(client: u64) -> (s: Session)
        ensures
            s@ == (SessionModel { client, reading: ReadingModel::Command, unread: seq![] }),
    {
        Session { client, reading: Reading::Command, inbox: Inbox::new() }
    }

    /// Whether the connection has to end.
    pub fn is_closed(&self) -> (r: bool)
        ensures
            r == (self@.reading is Closed),
    {
        match self.reading {
            Reading::Closed => true,
            _ => false,
        }
    }

    /// What a command leads to.
    pub fn on_command(&mut self, state: &mut State, command: Command) -> (o: Outcome)
        ensures
            (StepModel { session: final(self)@, state: final(state)@, outcome: o@ }) == obeyed(
                old(self)@,
                old(state)@,
                command@,
            ),
    {
        self.reading = Reading::Command;
        match command {
            Command::Connect => Outcome::Silent,
            Command::Ping => Outcome::Reply { frame: pong() },
            Command::Subscribe { subject, sid } => {
                state.subscribe_client(subject, self.client, sid);
                Outcome::Silent
            },
            Command::Unsubscribe { sid } => {
                state.unsubscribe(self.client, sid.as_str());
                Outcome::Silent
            },
            Command::Publish { subject, len } => {
                self.reading = Reading::Payload { subject, len };
                Outcome::Silent
            },
            Command::Ignored => Outcome::Silent,
        }
    }

    /// What a line leads to.
    fn on_line(&mut self, state: &mut State, line: Vec<u8>) -> (o: Outcome)
        ensures
            (StepModel { session: final(self)@, state: final(state)@, outcome: o@ }) == line_read(
                old(self)@,
                old(state)@,
                line@,
            ),
    {
        match read_text(line) {
            Some(text) => {
                let command = parse_command(text.as_str());
                self.on_command(state, command)
            },
            None => {
                self.reading = Reading::Closed;
                self.inbox = Inbox::new();
                Outcome::Close
            },
        }
    }

    /// What the payload of a message leads to.
    fn on_payload(&mut self, state: &State, subject: &str, payload: Vec<u8>) -> (o: Outcome)
        ensures
            (StepModel { session: final(self)@, state: state@, outcome: o@ }) == payload_read(
                old(self)@,
                state@,
                subject@,
                payload@,
            ),
    {
        self.reading = Reading::Command;
        let deliveries = state.publish(subject, payload.as_slice());
        Outcome::Publish { payload, deliveries }
    }

    /// What the next line or payload leads to, once it is whole.
    fn on_next(&mut self, state: &mut State) -> (r: Option<Outcome>)
        ensures
            r is Some <==> can_read(old(self)@),
            r matches Some(o) ==> (StepModel {
                session: final(self)@,
                state: final(state)@,
                outcome: o@,
            }) == read_one(old(self)@, old(state)@),
            r is None ==> final(self)@ == old(self)@ && final(state)@ == old(state)@,
    {
        let mut reading = Reading::Closed;
        std::mem::swap(&mut reading, &mut self.reading);
        match reading {
            Reading::Command => {
                self.reading = Reading::Command;
                match self.inbox.take_line() {
                    Some(line) => Some(self.on_line(state, line)),
                    None => None,
                }
            },
            Reading::Payload { subject, len } => match self.inbox.take_payload(len) {
                Some(payload) => Some(self.on_payload(state, subject.as_str(), payload)),
                None => {
                    self.reading = Reading::Payload { subject, len };
                    None
                },
            },
            Reading::Closed => None,
        }
    }

    /// What the next bytes of the client lead to: one outcome for each line and
    /// each payload that they complete, in order.
    pub fn on_bytes(&mut self, state: &mut State, input: &[u8]) -> (os: Vec<Outcome>)
        ensures
            (ServedModel {
                session: final(self)@,
                state: final(state)@,
                outcomes: outcomes(os@),
            }) == served(with_input(old(self)@, input@), old(state)@),
    {
        if !self.is_closed() {
            self.inbox.receive(input);
        }
        let ghost goal = served(with_input(old(self)@, input@), old(state)@);
        let mut os: Vec<Outcome> = Vec::new();
        let mut more = true;
        proof {
            assert(self@ =~= with_input(old(self)@, input@));
            assert(outcomes(os@) + served(self@, state@).outcomes =~= served(
                self@,
                state@,
            ).outcomes);
        }
        while more
            invariant
                goal.session == served(self@, state@).session,
                goal.state == served(self@, state@).state,
                goal.outcomes == outcomes(os@) + served(self@, state@).outcomes,
                !more ==> !can_read(self@),
            decreases
                    self@.unread.len(),
                    if more {
                        1int
                    } else {
                        0
                    },
        {
            let ghost before = *self;
            let ghost known = *state;
            let ghost done = os@;
            match self.on_next(state) {
                Some(o) => {
                    let ghost got = o;
                    os.push(o);
                    proof {
                        lemma_reading_shortens(before@, known@);
                        assert(outcomes(os@) =~= outcomes(done).push(got@));
                        assert(outcomes(done).push(got@) + served(self@, state@).outcomes
                            =~= outcomes(done) + (seq![got@] + served(self@, state@).outcomes));
                    }
                },
                None => {
                    more = false;
                },
            }
        }
        proof {
            assert(outcomes(os@) + Seq::<OutcomeModel>::empty() =~= outcomes(os@));
        }
        os
    }

    /// What the end of the client's input leads to.
    pub fn on_end(&mut self, state: &mut State) -> (r: Option<Outcome>)
        ensures
            r is Some <==> read_last(old(self)@, old(state)@) is Some,
            r matches Some(o) ==> read_last(old(self)@, old(state)@) == Some(
                StepModel { session: final(self)@, state: final(state)@, outcome: o@ },
            ),
            r is None ==> final(self)@ == old(self)@ && final(state)@ == old(state)@,
    {
        if self.inbox.bytes.len() == 0 {
            return None;
        }
        let mut reading = Reading::Closed;
        std::mem::swap(&mut reading, &mut self.reading);
        match reading {
            Reading::Command => {
                self.reading = Reading::Command;
                let line = self.inbox.take_rest(None);
                Some(self.on_line(state, line))
            },
            Reading::Payload { subject, len } => {
                let payload = self.inbox.take_rest(Some(len));
                Some(self.on_payload(state, subject.as_str(), payload))
            },
            Reading::Closed => None,
        }
    }

    /// The client is gone: its subscriptions end.
    pub fn on_close(&self, state: &mut State)
        ensures
            final(state)@ == (StateModel {
                client_subs: without_client(old(state)@.client_subs, self.client),
                ..old(state)@
            }),
    {
        state.disconnect(self.client);
    }
}

proof fn lemma_reading_shortens(s: SessionModel, m: StateModel)
    requires
        can_read(s),
    ensures
        read_one(s, m).session.unread.len() < s.unread.len(),
{
}

// ── Laws ──────────────────────────────────────────────────────────────────────

proof fn lemma_word_char(line: Seq<char>, word: Seq<char>, i: int)
    requires
        crate::text::begins_with_word(line, word),
        0 <= i < word.len(),
    ensures
        crate::text::ascii_upper(line[i]) == word[i],
{
    let k = word.len() as int;
    assert(crate::text::ascii_uppercase(line.take(k))[i] == crate::text::ascii_upper(
        line.take(k)[i],
    ));
}

/// The word at the start of a line, in any letter case, decides what the line
/// asks for.
pub proof fn word_decides(line: Seq<char>)
    ensures
        crate::text::begins_with_word(line, "CONNECT"@) ==> asked_by(line) == CommandModel::Connect,
        crate::text::begins_with_word(line, "PING"@) ==> asked_by(line) == CommandModel::Ping,
        crate::text::begins_with_word(line, "SUB"@) ==> asked_by(line) == sub_command(line),
        crate::text::begins_with_word(line, "UNSUB"@) ==> asked_by(line) == unsub_command(line),
        crate::text::begins_with_word(line, "PUB"@) ==> asked_by(line) == pub_command(line),
{
    reveal_strlit("CONNECT");
    reveal_strlit("PING");
    reveal_strlit("SUB");
    reveal_strlit("UNSUB");
    reveal_strlit("PUB");
    if crate::text::begins_with_word(line, "CONNECT"@) {
        lemma_word_char(line, "CONNECT"@, 0);
    }
    if crate::text::begins_with_word(line, "PING"@) {
        lemma_word_char(line, "PING"@, 0);
        lemma_word_char(line, "PING"@, 1);
    }
    if crate::text::begins_with_word(line, "SUB"@) {
        lemma_word_char(line, "SUB"@, 0);
    }
    if crate::text::begins_with_word(line, "UNSUB"@) {
        lemma_word_char(line, "UNSUB"@, 0);
    }
    if crate::text::begins_with_word(line, "PUB"@) {
        lemma_word_char(line, "PUB"@, 0);
        lemma_word_char(line, "PUB"@, 1);
    }
}

/// How the bytes of a client are cut into reads makes no difference: the same
/// bytes in one piece lead to the same outcomes and leave the same session and
/// the same broker.
pub proof fn reads_may_be_cut_anywhere(s: SessionModel, m: StateModel, a: Seq<u8>, b: Seq<u8>)
    ensures
        ({
            let first = served(with_input(s, a), m);
            let second = served(with_input(first.session, b), first.state);
            let whole = served(with_input(s, a + b), m);
            &&& whole.session == second.session
            &&& whole.state == second.state
            &&& whole.outcomes == first.outcomes + second.outcomes
        }),
{
    lemma_more_input(with_input(s, a), m, b);
    assert(with_input(s, a + b) =~= with_input(with_input(s, a), b)) by {
        assert(s.unread + (a + b) =~= s.unread + a + b);
    }
}

proof fn lemma_more_input(s: SessionModel, m: StateModel, more: Seq<u8>)
    ensures
        ({
            let first = served(s, m);
            let second = served(with_input(first.session, more), first.state);
            let whole = served(with_input(s, more), m);
            &&& whole.session == second.session
            &&& whole.state == second.state
            &&& whole.outcomes == first.outcomes + second.outcomes
        }),
    decreases s.unread.len(),
{
    let first = served(s, m);
    let second = served(with_input(first.session, more), first.state);
    let longer = with_input(s, more);
    if can_read(s) {
        let one = read_one(s, m);
        lemma_reading_shortens(s, m);
        match s.reading {
            ReadingModel::Command => {
                crate::framing::whole_lines_stay(s.unread, more);
            },
            ReadingModel::Payload { subject, len } => {
                crate::framing::whole_payloads_stay(s.unread, len, more);
            },
            ReadingModel::Closed => {},
        }
        assert(can_read(longer));
        assert(read_one(longer, m).session =~= with_input(one.session, more));
        assert(read_one(longer, m).state =~= one.state);
        assert(read_one(longer, m).outcome =~= one.outcome);
        lemma_more_input(one.session, one.state, more);
        let rest = served(one.session, one.state);
        assert(seq![one.outcome] + (rest.outcomes + second.outcomes) =~= seq![one.outcome]
            + rest.outcomes + second.outcomes);
    } else {
        assert(first.outcomes + second.outcomes =~= second.outcomes);
    }
}

/// A subscriber gets every message whose subject its pattern matches.
pub proof fn subscribers_get_messages(
    subs: Seq<SubModel>,
    i: int,
    subject: Seq<char>,
    payload: Seq<u8>,
)
    requires
        0 <= i < subs.len(),
        matches_subject(subs[i].pattern, subject),
    ensures
        frames_for(subs, subject, payload).contains(
            (subs[i].client, msg_frame(subject, subs[i].sid, payload)),
        ),
    decreases subs.len(),
{
    let frames = frames_for(subs, subject, payload);
    let front = frames_for(subs.drop_last(), subject, payload);
    let wanted = (subs[i].client, msg_frame(subject, subs[i].sid, payload));
    if i == subs.len() - 1 {
        assert(frames[frames.len() - 1] == wanted);
    } else {
        subscribers_get_messages(subs.drop_last(), i, subject, payload);
        let k = front.index_of(wanted);
        assert(front.contains(wanted));
        assert(frames[k] == wanted);
    }
}

/// Every frame that a message sends is for a subscription whose pattern matches.
pub proof fn messages_go_to_subscribers(
    subs: Seq<SubModel>,
    subject: Seq<char>,
    payload: Seq<u8>,
    k: int,
)
    requires
        0 <= k < frames_for(subs, subject, payload).len(),
    ensures
        exists|i: int|
            0 <= i < subs.len() && matches_subject((#[trigger] subs[i]).pattern, subject)
                && frames_for(subs, subject, payload)[k] == (
                subs[i].client,
                msg_frame(subject, subs[i].sid, payload),
            ),
    decreases subs.len(),
{
    if subs.len() > 0 {
        let front = subs.drop_last();
        let n = frames_for(front, subject, payload).len();
        if k < n {
            messages_go_to_subscribers(front, subject, payload, k);
            let i = choose|i: int|
                0 <= i < front.len() && matches_subject((#[trigger] front[i]).pattern, subject)
                    && frames_for(front, subject, payload)[k] == (
                    front[i].client,
                    msg_frame(subject, front[i].sid, payload),
                );
            assert(subs[i] == front[i]);
        } else {
            assert(subs[subs.len() - 1] == subs.last());
        }
    }
}

/// After a client is gone, no subscription of its is left and those of the
/// others are.
pub proof fn gone_clients_are_forgotten(subs: Seq<SubModel>, client: u64)
    ensures
        forall|i: int|
            0 <= i < without_client(subs, client).len() ==> (#[trigger] without_client(
                subs,
                client,
            )[i]).client != client,
        forall|s: SubModel|
            s.client != client ==> (#[trigger] without_client(subs, client).contains(s)
                <==> subs.contains(s)),
    decreases subs.len(),
{
    if subs.len() > 0 {
        let front = subs.drop_last();
        let kept = without_client(front, client);
        let all = without_client(subs, client);
        gone_clients_are_forgotten(front, client);
        assert forall|s: SubModel| s.client != client implies (#[trigger] all.contains(s)
            <==> subs.contains(s)) by {
            assert(kept.contains(s) <==> front.contains(s));
            if all.contains(s) {
                let i = all.index_of(s);
                if i < kept.len() {
                    assert(kept[i] == s);
                    let j = front.index_of(s);
                    assert(subs[j] == s);
                } else {
                    assert(subs[subs.len() - 1] == s);
                }
            }
            if subs.contains(s) {
                let i = subs.index_of(s);
                if i < front.len() {
                    assert(front[i] == s);
                    let j = kept.index_of(s);
                    assert(all[j] == s);
                } else {
                    assert(all[all.len() - 1] == s);
                }
            }
        }
    }
}

/// After a client ended a subscription, nothing of it is left under that number
/// and every other subscription stays.
pub proof fn ended_subscriptions_are_forgotten(subs: Seq<SubModel>, client: u64, sid: Seq<char>)
    ensures
        forall|s: SubModel| #[trigger]
            without_sub(subs, client, sid).contains(s) <==> subs.contains(s) && !(s.client == client
                && s.sid == sid),
    decreases subs.len(),
{
    let all = without_sub(subs, client, sid);
    if subs.len() > 0 {
        let front = subs.drop_last();
        let kept = without_sub(front, client, sid);
        ended_subscriptions_are_forgotten(front, client, sid);
        assert forall|s: SubModel| #[trigger] all.contains(s) <==> subs.contains(s) && !(s.client
            == client && s.sid == sid) by {
            assert(kept.contains(s) <==> front.contains(s) && !(s.client == client && s.sid == sid));
            if all.contains(s) {
                let i = all.index_of(s);
                if i < kept.len() {
                    assert(kept[i] == s);
                    assert(kept.contains(s));
                    let j = front.index_of(s);
                    assert(subs[j] == s);
                } else {
                    assert(subs[subs.len() - 1] == s);
                }
            }
            if subs.contains(s) && !(s.client == client && s.sid == sid) {
                let i = subs.index_of(s);
                if i < front.len() {
                    assert(front[i] == s);
                    let j = kept.index_of(s);
                    assert(all[j] == s);
                } else {
                    assert(all[all.len() - 1] == s);
                }
            }
        }
    }
}

/// A subscription may name a queue group between the subject and its number; the
/// number is what counts.
pub proof fn queue_groups_are_passed_over(
    subject: Seq<char>,
    group: Seq<char>,
    sid: Seq<char>,
)
    requires
        !subject.contains(' '),
        !group.contains(' '),
        !sid.contains(' '),
    ensures
        sub_command(
            seq!['S', 'U', 'B', ' '] + subject + seq![' '] + group + seq![' '] + sid,
        ) == (CommandModel::Subscribe { subject, sid }),
        sub_command(seq!['S', 'U', 'B', ' '] + subject + seq![' '] + sid) == (
        CommandModel::Subscribe { subject, sid }),
{
    let word = seq!['S', 'U', 'B'];
    let tail = group + seq![' '] + sid;
    let line = seq!['S', 'U', 'B', ' '] + subject + seq![' '] + group + seq![' '] + sid;
    assert(line =~= word + seq![' '] + (subject + seq![' '] + tail));
    crate::text::splitn_of_joined(word, subject + seq![' '] + tail, 4, ' ');
    crate::text::splitn_of_joined(subject, tail, 3, ' ');
    crate::text::splitn_of_joined(group, sid, 2, ' ');
    crate::text::splitn_of_plain(sid, 1, ' ');
    assert(crate::text::splitn(line, 4, ' ') =~= seq![word, subject, group, sid]);
    let plain = seq!['S', 'U', 'B', ' '] + subject + seq![' '] + sid;
    assert(plain =~= word + seq![' '] + (subject + seq![' '] + sid));
    crate::text::splitn_of_joined(word, subject + seq![' '] + sid, 4, ' ');
    crate::text::splitn_of_joined(subject, sid, 3, ' ');
    crate::text::splitn_of_plain(sid, 2, ' ');
    assert(crate::text::splitn(plain, 4, ' ') =~= seq![word, subject, sid]);
}

/// A subscription is ended by its number, whether a number of messages follows it
/// or not.
pub proof fn subscriptions_end_by_their_number(sid: Seq<char>, rest: Seq<char>)
    requires
        !sid.contains(' '),
    ensures
        unsub_command(seq!['U', 'N', 'S', 'U', 'B', ' '] + sid) == (CommandModel::Unsubscribe {
            sid,
        }),
        unsub_command(seq!['U', 'N', 'S', 'U', 'B', ' '] + sid + seq![' '] + rest) == (
        CommandModel::Unsubscribe { sid }),
{
    let word = seq!['U', 'N', 'S', 'U', 'B'];
    let short = seq!['U', 'N', 'S', 'U', 'B', ' '] + sid;
    assert(short =~= word + seq![' '] + sid);
    crate::text::splitn_of_joined(word, sid, 3, ' ');
    crate::text::splitn_of_plain(sid, 2, ' ');
    assert(crate::text::splitn(short, 3, ' ') =~= seq![word, sid]);
    let long = short + seq![' '] + rest;
    assert(long =~= word + seq![' '] + (sid + seq![' '] + rest));
    crate::text::splitn_of_joined(word, sid + seq![' '] + rest, 3, ' ');
    crate::text::splitn_of_joined(sid, rest, 2, ' ');
    assert(crate::text::splitn(rest, 1, ' ') == seq![rest]);
    assert(crate::text::splitn(long, 3, ' ') =~= seq![word, sid, rest]);
}

/// A line of a command without what the command needs is passed over.
pub proof fn incomplete_commands_are_passed_over(word: Seq<char>)
    requires
        !word.contains(' '),
    ensures
        sub_command(word) == CommandModel::Ignored,
        unsub_command(word) == CommandModel::Ignored,
        pub_command(word) == CommandModel::Ignored,
{
    crate::text::splitn_of_plain(word, 4, ' ');
    crate::text::splitn_of_plain(word, 3, ' ');
}

/// A length that is no number counts as zero, and any other as it is written.
pub proof fn lengths_are_numbers(n: nat, s: Seq<char>, i: int)
    ensures
        n <= usize::MAX ==> length_of(crate::decimal::decimal(n)) == n,
        length_of(seq![]) == 0,
        0 < i < s.len() && !('0' <= s[i] <= '9') ==> length_of(s) == 0,
{
    if n <= usize::MAX {
        crate::decimal::decimal_round_trip(n, usize::MAX as nat);
    }
    if 0 < i < s.len() && !('0' <= s[i] <= '9') {
        let d = crate::decimal::unsigned_part(s);
        if crate::decimal::all_digits(d) {
            if s[0] == '+' {
                assert(crate::decimal::is_digit(d[i - 1]));
            } else {
                assert(crate::decimal::is_digit(d[i]));
            }
        }
    }
}

/// What a command does: a subscription is added for the client, one that is ended
/// is gone, a ping gets its answer, and a message waits for its payload; nothing
/// else changes, and nothing else is said.
pub proof fn commands_are_obeyed(
    s: SessionModel,
    m: StateModel,
    subject: Seq<char>,
    sid: Seq<char>,
    len: nat,
    c: CommandModel,
)
    ensures
        obeyed(s, m, CommandModel::Subscribe { subject, sid }).state.client_subs
            == m.client_subs.push(SubModel { pattern: subject, client: s.client, sid }),
        obeyed(s, m, CommandModel::Unsubscribe { sid }).state.client_subs == without_sub(
            m.client_subs,
            s.client,
            sid,
        ),
        !(c is Subscribe) && !(c is Unsubscribe) ==> obeyed(s, m, c).state == m,
        obeyed(s, m, c).state.internal_subs == m.internal_subs,
        obeyed(s, m, c).state.next_id == m.next_id,
        obeyed(s, m, CommandModel::Ping).outcome == (OutcomeModel::Reply {
            frame: bytes_of("PONG\r\n"@),
        }),
        !(c is Ping) ==> obeyed(s, m, c).outcome == OutcomeModel::Silent,
        obeyed(s, m, CommandModel::Publish { subject, len }).session.reading == (
        ReadingModel::Payload { subject, len }),
        !(c is Publish) ==> obeyed(s, m, c).session.reading == ReadingModel::Command,
        obeyed(s, m, c).session.client == s.client,
        obeyed(s, m, c).session.unread == s.unread,
{
}

/// A subscription more means one frame more exactly where its pattern matches: for
/// its client, under its number, after those of the earlier ones.
pub proof fn each_match_gets_one_frame(
    subs: Seq<SubModel>,
    sub: SubModel,
    subject: Seq<char>,
    payload: Seq<u8>,
)
    ensures
        matches_subject(sub.pattern, subject) ==> frames_for(subs.push(sub), subject, payload)
            == frames_for(subs, subject, payload).push(
            (sub.client, msg_frame(subject, sub.sid, payload)),
        ),
        !matches_subject(sub.pattern, subject) ==> frames_for(subs.push(sub), subject, payload)
            == frames_for(subs, subject, payload),
        frames_for(seq![], subject, payload).len() == 0,
{
    assert(subs.push(sub).drop_last() =~= subs);
}

/// The subscribers of the same process that a message reaches are those whose
/// pattern matches, in order, each once.
pub proof fn internal_subscribers_are_found(patterns: Seq<Seq<char>>, subject: Seq<char>)
    requires
        patterns.len() <= usize::MAX,
    ensures
        forall|i: int|
            0 <= i < patterns.len() ==> (internal_for(patterns, subject).contains(i as usize)
                <==> matches_subject(#[trigger] patterns[i], subject)),
        forall|k: int|
            0 <= k < internal_for(patterns, subject).len() ==> (#[trigger] internal_for(
                patterns,
                subject,
            )[k]) < patterns.len(),
        forall|k: int, l: int|
            0 <= k < l < internal_for(patterns, subject).len() ==> #[trigger] internal_for(
                patterns,
                subject,
            )[k] < #[trigger] internal_for(patterns, subject)[l],
    decreases patterns.len(),
{
    let all = internal_for(patterns, subject);
    if patterns.len() > 0 {
        let front = patterns.drop_last();
        let few = internal_for(front, subject);
        let n = front.len() as usize;
        internal_subscribers_are_found(front, subject);
        assert forall|i: int| 0 <= i < patterns.len() implies (all.contains(i as usize)
            <==> matches_subject(#[trigger] patterns[i], subject)) by {
            if i < front.len() {
                assert(front[i] == patterns[i]);
                if few.contains(i as usize) {
                    let k = few.index_of(i as usize);
                    assert(all[k] == i as usize);
                }
                if all.contains(i as usize) {
                    let k = all.index_of(i as usize);
                    if k < few.len() {
                        assert(few[k] == i as usize);
                    }
                }
            } else {
                if matches_subject(patterns.last(), subject) {
                    assert(all[all.len() - 1] == n);
                } else if all.contains(n) {
                    let k = all.index_of(n);
                    assert(few[k] < front.len());
                }
            }
        }
    }
}

/// The subscriptions that stay keep their order.
pub proof fn remaining_subscriptions_stay_in_order(
    subs: Seq<SubModel>,
    sub: SubModel,
    client: u64,
    sid: Seq<char>,
)
    ensures
        without_client(subs.push(sub), client) == (if sub.client == client {
            without_client(subs, client)
        } else {
            without_client(subs, client).push(sub)
        }),
        without_sub(subs.push(sub), client, sid) == (if sub.client == client && sub.sid == sid {
            without_sub(subs, client, sid)
        } else {
            without_sub(subs, client, sid).push(sub)
        }),
{
    assert(subs.push(sub).drop_last() =~= subs);
}

/// A line that is no text ends the connection: what came with it is dropped, later
/// input too, and the subscriptions stay until the client is gone.
pub proof fn broken_lines_end_the_session(
    s: SessionModel,
    m: StateModel,
    line: Seq<u8>,
    rest: Seq<u8>,
    more: Seq<u8>,
)
    requires
        s.reading is Command,
        s.unread.len() == 0,
        !line.contains(10u8),
        !vstd::utf8::valid_utf8(line),
    ensures
        ({
            let a = served(with_input(s, line + seq![13u8, 10u8] + rest), m);
            &&& a.session.reading is Closed
            &&& a.session.unread.len() == 0
            &&& a.state == m
            &&& a.outcomes == seq![OutcomeModel::Close]
            &&& with_input(a.session, more) == a.session
        }),
{
    let input = line + seq![13u8, 10u8] + rest;
    assert forall|j: int| 0 <= j < line.len() implies #[trigger] line[j] != 10u8 by {
        assert(line.contains(line[j]));
    }
    crate::framing::lines_are_read_back(line, rest);
    let start = with_input(s, input);
    assert(start.unread =~= input);
    let one = read_one(start, m);
    let none = served(one.session, one.state);
    assert(none.outcomes =~= seq![]);
    assert(served(start, m).outcomes =~= seq![OutcomeModel::Close]);
}

/// At the end of the input a last line counts as if its end had come, and of a last
/// payload counts what is there, up to its length.
pub proof fn last_input_counts(s: SessionModel, m: StateModel, subject: Seq<char>, len: nat)
    requires
        s.unread.len() > 0,
    ensures
        s.reading is Command && !s.unread.contains(10u8) && s.unread.last() != 13u8 ==> {
            let ended = read_one(SessionModel { unread: s.unread + seq![10u8], ..s }, m);
            &&& read_last(s, m) is Some
            &&& read_last(s, m)->0.outcome == ended.outcome
            &&& read_last(s, m)->0.state == ended.state
            &&& read_last(s, m)->0.session == ended.session
        },
        s.reading == (ReadingModel::Payload { subject, len }) ==> {
            let payload = if s.unread.len() > len {
                s.unread.take(len as int)
            } else {
                s.unread
            };
            &&& read_last(s, m) is Some
            &&& read_last(s, m)->0.state == m
            &&& read_last(s, m)->0.outcome == (OutcomeModel::Publish {
                payload,
                clients: frames_for(m.client_subs, subject, payload),
                internal: internal_for(m.internal_subs, subject),
            })
        },
        s.reading is Closed ==> read_last(s, m) is None,
{
    if s.reading is Command && !s.unread.contains(10u8) && s.unread.last() != 13u8 {
        crate::framing::bare_lines_are_read_back(s.unread);
    }
}

/// The models of the broker and of a session are what they hold.
pub proof fn sessions_are_their_model(s: Session, m: State, i: int)
    ensures
        s@.client == s.client,
        s@.unread == s.inbox@,
        s.reading is Command <==> s@.reading is Command,
        s.reading is Closed <==> s@.reading is Closed,
        s.reading matches Reading::Payload { subject, len } ==> s@.reading == (
        ReadingModel::Payload { subject: subject@, len: len as nat }),
        m@.next_id == m.next_id,
        m@.client_subs.len() == m.client_subs@.len(),
        0 <= i < m.client_subs@.len() ==> {
            &&& m@.client_subs[i].pattern == m.client_subs@[i].pattern@
            &&& m@.client_subs[i].client == m.client_subs@[i].client
            &&& m@.client_subs[i].sid == m.client_subs@[i].sid@
        },
        m@.internal_subs.len() == m.internal_subs@.len(),
        0 <= i < m.internal_subs@.len() ==> m@.internal_subs[i] == m.internal_subs@[i]@,
{
}

/// The models of outcomes are what they hold, each at its place: a message goes to
/// each of its clients as its frame.
pub proof fn outcomes_are_their_model(os: Seq<Outcome>, i: int, k: int)
    requires
        0 <= i < os.len(),
    ensures
        outcomes(os).len() == os.len(),
        os[i] is Silent <==> outcomes(os)[i] is Silent,
        os[i] is Close <==> outcomes(os)[i] is Close,
        os[i] matches Outcome::Reply { frame } ==> outcomes(os)[i] == (OutcomeModel::Reply {
            frame: frame@,
        }),
        os[i] matches Outcome::Publish { payload, deliveries } ==> (
        outcomes(os)[i] matches OutcomeModel::Publish { payload: p, clients, internal } && {
            &&& p == payload@
            &&& internal == deliveries.internal@
            &&& clients.len() == deliveries.clients@.len()
            &&& 0 <= k < clients.len() ==> clients[k].0 == deliveries.clients@[k].client
                && clients[k].1 == deliveries.clients@[k].frame@
        }),
{
}

/// The model of a command is what it asks for.
pub proof fn commands_are_their_model(c: Command)
    ensures
        c is Connect <==> c@ is Connect,
        c is Ping <==> c@ is Ping,
        c is Ignored <==> c@ is Ignored,
        c matches Command::Subscribe { subject, sid } ==> c@ == (CommandModel::Subscribe {
            subject: subject@,
            sid: sid@,
        }),
        c matches Command::Unsubscribe { sid } ==> c@ == (CommandModel::Unsubscribe { sid: sid@ }),
        c matches Command::Publish { subject, len } ==> c@ == (CommandModel::Publish {
            subject: subject@,
            len: len as nat,
        }),
{
}

/// A message is delivered as it was published: each frame to its client, in order,
/// and the bare payload to the subscribers of the same process.
pub proof fn deliveries_are_the_frames(
    d: Deliveries,
    m: StateModel,
    subject: Seq<char>,
    payload: Seq<u8>,
    k: int,
)
    requires
        delivers(d, m, subject, payload),
    ensures
        d.clients@.len() == frames_for(m.client_subs, subject, payload).len(),
        0 <= k < d.clients@.len() ==> {
            let f = frames_for(m.client_subs, subject, payload)[k];
            &&& d.clients@[k].client == f.0
            &&& d.clients@[k].frame@ == f.1
        },
        d.internal@ == internal_for(m.internal_subs, subject),
{
    let f = frames_for(m.client_subs, subject, payload);
    assert(delivered(d.clients@).len() == d.clients@.len());
    if 0 <= k < d.clients@.len() {
        assert(delivered(d.clients@)[k] == f[k]);
    }
}

/// A new client is told what the broker is, in one line: a server that asks for
/// neither a token nor TLS.
pub proof fn banners_ask_for_nothing()
    ensures
        info_banner() == "INFO {\"server_id\":\"LOADPILOT\","@ + "\"version\":\"2.10.0\","@
            + "\"host\":\"0.0.0.0\","@ + "\"port\":4222,"@ + "\"max_payload\":1048576,"@
            + "\"proto\":1,"@ + "\"auth_required\":false,"@ + "\"tls_required\":false}\r\n"@,
{
    reveal_strlit(
        "INFO {\"server_id\":\"LOADPILOT\",\"version\":\"2.10.0\",\"host\":\"0.0.0.0\",\"port\":4222,\"max_payload\":1048576,\"proto\":1,\"auth_required\":false,\"tls_required\":false}\r\n",
    );
    reveal_strlit("INFO {\"server_id\":\"LOADPILOT\",");
    reveal_strlit("\"version\":\"2.10.0\",");
    reveal_strlit("\"host\":\"0.0.0.0\",");
    reveal_strlit("\"port\":4222,");
    reveal_strlit("\"max_payload\":1048576,");
    reveal_strlit("\"proto\":1,");
    reveal_strlit("\"auth_required\":false,");
    reveal_strlit("\"tls_required\":false}\r\n");
    assert(info_banner() =~= "INFO {\"server_id\":\"LOADPILOT\","@ + "\"version\":\"2.10.0\","@
        + "\"host\":\"0.0.0.0\","@ + "\"port\":4222,"@ + "\"max_payload\":1048576,"@
        + "\"proto\":1,"@ + "\"auth_required\":false,"@ + "\"tls_required\":false}\r\n"@);
}

} // verus!
