//! The client's side of the broker protocol: where to connect, what to send and
//! how to read what comes in.
//!
//! Addresses are `host:port`, `nats://host:port` or `tls://host:port`.
use crate::broker::parse_length;
use crate::broker::pong;
use crate::broker::push_bytes;
use crate::broker::push_text;
use crate::decimal::to_decimal;
use crate::framing::read_text;
use crate::framing::Inbox;
use crate::text::before;
use crate::text::replace;
use crate::text::splitn_at;
use crate::text::starts_with;
use crate::text::strip_prefix;
use crate::text::to_uppercase;
use crate::text::trim;
use vstd::prelude::*;

verus! {

// ── Addresses ─────────────────────────────────────────────────────────────────

/// The address without its scheme.
pub open spec fn without_scheme(url: Seq<char>) -> Seq<char> {
    if crate::text::begins_with(url, "tls://"@) {
        url.skip("tls://"@.len() as int)
    } else if crate::text::begins_with(url, "nats://"@) {
        url.skip("nats://"@.len() as int)
    } else {
        url
    }
}

/// The part of an address before the port.
pub open spec fn host_of(addr: Seq<char>) -> Seq<char> {
    addr.take(crate::text::find(addr, ':') as int)
}

/// Where to connect: whether with TLS, the host, and `host:port`. TLS is used
/// exactly for the scheme `tls://`, and every address is accepted.
pub fn parse_url(url: &str) -> (r: Result<(bool, String, String), String>)
    ensures
        r matches Ok(a) && {
            &&& a.0 == crate::text::begins_with(url@, "tls://"@)
            &&& a.1@ == host_of(without_scheme(url@))
            &&& a.2@ == without_scheme(url@)
        },
{
    match strip_prefix(url, "tls://") {
        Some(rest) => Ok((true, before(rest.as_str(), ':'), rest)),
        None => match strip_prefix(url, "nats://") {
            Some(rest) => Ok((false, before(rest.as_str(), ':'), rest)),
            None => Ok((false, before(url, ':'), url.to_string())),
        },
    }
}

/// The scheme `nats://` means the same as none.
pub proof fn nats_scheme_means_plain(addr: Seq<char>)
    requires
        !crate::text::begins_with(addr, "tls://"@),
        !crate::text::begins_with(addr, "nats://"@),
    ensures
        !crate::text::begins_with("nats://"@ + addr, "tls://"@),
        without_scheme("nats://"@ + addr) == addr,
        without_scheme(addr) == addr,
{
    reveal_strlit("tls://");
    reveal_strlit("nats://");
    let url = "nats://"@ + addr;
    if crate::text::begins_with(url, "tls://"@) {
        assert(url.take(6)[0] == "tls://"@[0]);
        assert(url[0] == "nats://"@[0]);
    }
    assert(url.take("nats://"@.len() as int) =~= "nats://"@);
    assert(url.skip("nats://"@.len() as int) =~= addr);
}

// ── Server names for TLS ──────────────────────────────────────────────────────

/// `ServerName` of rustls, a DNS name or an IP address that a TLS handshake
/// checks. It is carried through unread.
#[verifier::external_type_specification]
#[verifier::external_body]
pub struct ExServerName<'a>(tokio_rustls::rustls::pki_types::ServerName<'a>);

/// What `ServerName::try_from` makes of a host, if it is a DNS name or an IP
/// address.
pub uninterp spec fn server_name_of(host: Seq<char>) -> Option<
    tokio_rustls::rustls::pki_types::ServerName<'static>,
>;

/// `ServerName::try_from` reads a host as a DNS name, or else as an IP address.
/// The result depends on the host alone; which hosts are accepted is left to the
/// name.
#[verifier::external_body]
fn read_server_name(host: &str) -> (r: Option<
    tokio_rustls::rustls::pki_types::ServerName<'static>,
>)
    ensures
        r == server_name_of(host@),
{
    tokio_rustls::rustls::pki_types::ServerName::try_from(host.to_string()).ok()
}

/// The name that was read, or what is said of a host that has none.
pub fn name_or_error(
    read: Option<tokio_rustls::rustls::pki_types::ServerName<'static>>,
    host: &str,
) -> (r: Result<tokio_rustls::rustls::pki_types::ServerName<'static>, String>)
    ensures
        read matches Some(name) ==> r matches Ok(n) && n == name,
        read is None ==> (r matches Err(e) && e@ == "Invalid TLS server name: "@ + host@),
{
    match read {
        Some(name) => Ok(name),
        None => {
            let mut e = "Invalid TLS server name: ".to_string();
            e.append(host);
            Err(e)
        },
    }
}

/// The name that the server at `host` has to prove in a TLS handshake.
pub fn server_name(host: &str) -> (r: Result<
    tokio_rustls::rustls::pki_types::ServerName<'static>,
    String,
>)
    ensures
        r is Ok <==> server_name_of(host@) is Some,
        r matches Ok(n) ==> server_name_of(host@) == Some(n),
        r matches Err(e) ==> e@ == "Invalid TLS server name: "@ + host@,
{
    name_or_error(read_server_name(host), host)
}

// ── What a client sends ───────────────────────────────────────────────────────

/// The part of the connect message that carries the token.
pub open spec fn auth_part(token: Option<Seq<char>>) -> Seq<char> {
    match token {
        Some(t) => ",\"auth_token\":\""@ + crate::text::replaced(t, '"', "\\\""@) + "\""@,
        None => ""@,
    }
}

/// The connect message.
pub open spec fn connect_message(tls: bool, token: Option<Seq<char>>) -> Seq<char> {
    "CONNECT {\"verbose\":false,\"pedantic\":false,\"tls_required\":"@ + (if tls {
        "true"@
    } else {
        "false"@
    }) + auth_part(token) + "}\r\n"@
}

/// The connect message. Quotes in the token are escaped.
pub fn build_connect(tls: bool, token: Option<&str>) -> (m: String)
    ensures
        m@ == connect_message(
            tls,
            match token {
                Some(t) => Some(t@),
                None => None,
            },
        ),
{
    let mut m = "CONNECT {\"verbose\":false,\"pedantic\":false,\"tls_required\":".to_string();
    m.append(
        if tls {
            "true"
        } else {
            "false"
        },
    );
    match token {
        Some(t) => {
            m.append(",\"auth_token\":\"");
            let escaped = replace(t, '"', "\\\"");
            m.append(escaped.as_str());
            m.append("\"");
        },
        None => {
            m.append("");
        },
    }
    m.append("}\r\n");
    proof {
        let t = match token {
            Some(t) => Some(t@),
            None => None,
        };
        assert(m@ =~= connect_message(tls, t));
    }
    m
}

/// The greeting of a client: the connect message and a ping.
pub fn greeting(tls: bool, token: Option<&str>) -> (f: Vec<u8>)
    ensures
        f@ == crate::broker::bytes_of(
            connect_message(
                tls,
                match token {
                    Some(t) => Some(t@),
                    None => None,
                },
            ),
        ) + crate::broker::bytes_of("PING\r\n"@),
{
    let mut f: Vec<u8> = Vec::new();
    let connect = build_connect(tls, token);
    push_text(&mut f, connect.as_str());
    push_text(&mut f, "PING\r\n");
    proof {
        let t = match token {
            Some(t) => Some(t@),
            None => None,
        };
        assert(f@ =~= crate::broker::bytes_of(connect_message(tls, t)) + crate::broker::bytes_of(
            "PING\r\n"@,
        ));
    }
    f
}

/// The line that subscribes to a subject.
pub open spec fn sub_line(subject: Seq<char>, sid: Seq<char>) -> Seq<char> {
    "SUB "@ + subject + " "@ + sid
}

/// The frame that subscribes to a subject.
pub fn subscribe_frame(subject: &str, sid: &str) -> (f: Vec<u8>)
    ensures
        f@ == crate::broker::bytes_of(sub_line(subject@, sid@) + crate::broker::crlf()),
{
    let mut line = "SUB ".to_string();
    line.append(subject);
    line.append(" ");
    line.append(sid);
    line.append("\r\n");
    let mut f: Vec<u8> = Vec::new();
    push_text(&mut f, line.as_str());
    proof {
        assert(f@ =~= crate::broker::bytes_of(sub_line(subject@, sid@) + crate::broker::crlf()));
    }
    f
}

/// The first line of a published message.
pub open spec fn pub_header(subject: Seq<char>, len: nat) -> Seq<char> {
    "PUB "@ + subject + " "@ + crate::decimal::decimal(len)
}

/// A published message.
pub open spec fn pub_frame(subject: Seq<char>, payload: Seq<u8>) -> Seq<u8> {
    crate::broker::bytes_of(pub_header(subject, payload.len()) + crate::broker::crlf()) + payload
        + crate::broker::bytes_of(crate::broker::crlf())
}

/// The frame that publishes a message.
pub fn publish_frame(subject: &str, payload: &[u8]) -> (f: Vec<u8>)
    ensures
        f@ == pub_frame(subject@, payload@),
{
    let mut line = "PUB ".to_string();
    line.append(subject);
    line.append(" ");
    let number = to_decimal(payload.len() as u128);
    line.append(number.as_str());
    line.append("\r\n");
    let mut f: Vec<u8> = Vec::new();
    push_text(&mut f, line.as_str());
    push_bytes(&mut f, payload);
    push_text(&mut f, "\r\n");
    proof {
        assert(f@ =~= pub_frame(subject@, payload@));
    }
    f
}

// ── What a client reads ───────────────────────────────────────────────────────

/// What a line of the server says.
#[derive(Debug)]
pub enum ServerLine {
    /// A payload of this many bytes follows.
    Message { subject: String, len: usize },
    Ping,
    /// Nothing that the client needs, or something incomplete.
    Ignored,
}

/// What a line of the server says, without its storage.
#[verifier::ext_equal]
pub enum ServerLineModel {
    Message { subject: Seq<char>, len: nat },
    Ping,
    Ignored,
}

impl View for ServerLine {
    type V = ServerLineModel;

    open spec fn view(&self) -> ServerLineModel {
        match self {
            ServerLine::Message { subject, len } => ServerLineModel::Message {
                subject: subject@,
                len: *len as nat,
            },
            ServerLine::Ping => ServerLineModel::Ping,
            ServerLine::Ignored => ServerLineModel::Ignored,
        }
    }
}

/// `MSG <subject> <sid> <#bytes>`.
pub open spec fn msg_line(line: Seq<char>) -> ServerLineModel {
    let parts = crate::text::splitn(line, 4, ' ');
    if parts.len() >= 4 {
        ServerLineModel::Message {
            subject: parts[1],
            len: crate::broker::length_of(parts[3]),
        }
    } else {
        ServerLineModel::Ignored
    }
}

/// What a line says, given the line without white space around it and its
/// upper-case form.
pub open spec fn server_line_of(upper: Seq<char>, line: Seq<char>) -> ServerLineModel {
    if crate::text::begins_with(upper, "MSG"@) {
        msg_line(line)
    } else if crate::text::begins_with(upper, "PING"@) {
        ServerLineModel::Ping
    } else {
        ServerLineModel::Ignored
    }
}

/// What a line says, given the line without white space around it and its
/// upper-case form.
pub fn read_server_line(upper: &str, line: &str) -> (r: ServerLine)
    ensures
        r@ == server_line_of(upper@, line@),
{
    if starts_with(upper, "MSG") {
        let parts = splitn_at(line, 4, ' ');
        let ghost texts = crate::text::texts(parts@);
        if parts.len() < 4 {
            ServerLine::Ignored
        } else {
            proof {
                assert(texts[1] == parts@[1]@);
                assert(texts[3] == parts@[3]@);
            }
            ServerLine::Message { subject: parts[1].clone(), len: parse_length(parts[3].as_str()) }
        }
    } else if starts_with(upper, "PING") {
        ServerLine::Ping
    } else {
        ServerLine::Ignored
    }
}

/// The word at the start of a line decides what the line says, in any letter
/// case.
pub proof fn first_word_decides(line: Seq<char>, upper: Seq<char>)
    requires
        crate::text::upper_form(line, upper),
    ensures
        crate::text::begins_with_word(line, "MSG"@) ==> server_line_of(upper, line) == msg_line(
            line,
        ),
        crate::text::begins_with_word(line, "PING"@) ==> server_line_of(upper, line)
            == ServerLineModel::Ping,
{
    reveal_strlit("MSG");
    reveal_strlit("PING");
    if crate::text::begins_with_word(line, "MSG"@) {
        crate::broker::upper_case_keeps_words(line, upper, "MSG"@);
    }
    if crate::text::begins_with_word(line, "PING"@) {
        crate::broker::upper_case_keeps_words(line, upper, "PING"@);
        if crate::text::begins_with(upper, "MSG"@) {
            assert(upper.take(3)[0] == 'M');
            assert(upper.take(4)[0] == 'P');
        }
    }
}

/// What a line says, given the line without white space around it. A line that
/// begins with one of the words, in any letter case, says that; of any other the
/// upper-case form decides.
pub open spec fn said_by(line: Seq<char>) -> ServerLineModel {
    if crate::text::begins_with_word(line, "MSG"@) {
        msg_line(line)
    } else if crate::text::begins_with_word(line, "PING"@) {
        ServerLineModel::Ping
    } else {
        server_line_of(crate::text::uppercase(line), line)
    }
}

/// What a line of the server says. The first word counts in any letter case.
pub fn parse_server_line(line: &str) -> (r: ServerLine)
    ensures
        r@ == said_by(crate::text::trimmed(line@)),
        r@ == server_line_of(
            crate::text::uppercase(crate::text::trimmed(line@)),
            crate::text::trimmed(line@),
        ),
        crate::text::upper_form(
            crate::text::trimmed(line@),
            crate::text::uppercase(crate::text::trimmed(line@)),
        ),
{
    let line = trim(line);
    let upper = to_uppercase(line.as_str());
    proof {
        first_word_decides(line@, upper@);
    }
    read_server_line(upper.as_str(), line.as_str())
}

/// A message that has come in.
#[derive(Debug)]
pub struct Message {
    pub subject: String,
    pub payload: Vec<u8>,
}

/// What a line or a payload of the server leads to.
#[derive(Debug)]
pub enum Received {
    Nothing,
    Message { message: Message },
    /// A frame to send back.
    Reply { frame: Vec<u8> },
    /// The connection ends.
    Close,
}

/// What a line or a payload of the server leads to, without its storage.
#[verifier::ext_equal]
pub enum ReceivedModel {
    Nothing,
    Message { subject: Seq<char>, payload: Seq<u8> },
    Reply { frame: Seq<u8> },
    Close,
}

/// What the next bytes of the server are.
#[derive(Debug)]
pub enum Due {
    /// A line.
    Line,
    /// The payload of a message, of `len` bytes.
    Payload { subject: String, len: usize },
    /// Nothing more is read: the server sent a line that is no text.
    Closed,
}

/// What the next bytes of the server are, without its storage.
#[verifier::ext_equal]
pub enum DueModel {
    Line,
    Payload { subject: Seq<char>, len: nat },
    Closed,
}

/// The reading end of a connection to the server.
#[derive(Debug)]
pub struct Reader {
    pub due: Due,
    /// What the server has sent and was not read yet.
    pub inbox: Inbox,
}

/// The reading end of a connection, without its storage.
#[verifier::ext_equal]
pub struct ReaderModel {
    pub due: DueModel,
    pub unread: Seq<u8>,
}

impl View for Received {
    type V = ReceivedModel;

    open spec fn view(&self) -> ReceivedModel {
        match self {
            Received::Nothing => ReceivedModel::Nothing,
            Received::Message { message } => ReceivedModel::Message {
                subject: message.subject@,
                payload: message.payload@,
            },
            Received::Reply { frame } => ReceivedModel::Reply { frame: frame@ },
            Received::Close => ReceivedModel::Close,
        }
    }
}

impl View for Due {
    type V = DueModel;

    open spec fn view(&self) -> DueModel {
        match self {
            Due::Line => DueModel::Line,
            Due::Payload { subject, len } => DueModel::Payload {
                subject: subject@,
                len: *len as nat,
            },
            Due::Closed => DueModel::Closed,
        }
    }
}

impl View for Reader {
    type V = ReaderModel;

    open spec fn view(&self) -> ReaderModel {
        ReaderModel { due: self.due@, unread: self.inbox@ }
    }
}

/// A reader after one line or payload, and what it led to.
#[verifier::ext_equal]
pub struct ReadModel {
    pub reader: ReaderModel,
    pub received: ReceivedModel,
}

/// What a line leads to: a message waits for its payload, and a ping is answered.
/// A line that is no text ends the connection, and what came with it is dropped.
pub open spec fn line_read(r: ReaderModel, line: Seq<u8>) -> ReadModel {
    match crate::framing::text_of(line) {
        Some(text) => match said_by(crate::text::trimmed(text)) {
            ServerLineModel::Message { subject, len } => ReadModel {
                reader: ReaderModel { due: DueModel::Payload { subject, len }, ..r },
                received: ReceivedModel::Nothing,
            },
            ServerLineModel::Ping => ReadModel {
                reader: ReaderModel { due: DueModel::Line, ..r },
                received: ReceivedModel::Reply { frame: crate::broker::bytes_of("PONG\r\n"@) },
            },
            ServerLineModel::Ignored => ReadModel {
                reader: ReaderModel { due: DueModel::Line, ..r },
                received: ReceivedModel::Nothing,
            },
        },
        None => ReadModel {
            reader: ReaderModel { due: DueModel::Closed, unread: seq![] },
            received: ReceivedModel::Close,
        },
    }
}

/// What the payload of a message leads to: the message is there.
pub open spec fn payload_read(r: ReaderModel, subject: Seq<char>, payload: Seq<u8>) -> ReadModel {
    ReadModel {
        reader: ReaderModel { due: DueModel::Line, ..r },
        received: ReceivedModel::Message { subject, payload },
    }
}

/// A whole line, or a whole payload where one is due, has come in.
pub open spec fn can_read(r: ReaderModel) -> bool {
    match r.due {
        DueModel::Line => crate::framing::has_line(r.unread),
        DueModel::Payload { subject, len } => crate::framing::has_payload(r.unread, len),
        DueModel::Closed => false,
    }
}

/// What the next line or payload leads to.
pub open spec fn read_one(r: ReaderModel) -> ReadModel {
    match r.due {
        DueModel::Line => line_read(
            ReaderModel { unread: crate::framing::after_line(r.unread), ..r },
            crate::framing::first_line(r.unread),
        ),
        DueModel::Payload { subject, len } => payload_read(
            ReaderModel { unread: crate::framing::after_payload(r.unread, len), ..r },
            subject,
            r.unread.take(len as int),
        ),
        DueModel::Closed => ReadModel { reader: r, received: ReceivedModel::Nothing },
    }
}

/// A reader after all that could be read, and what each line and payload led to,
/// in order.
#[verifier::ext_equal]
pub struct HeardModel {
    pub reader: ReaderModel,
    pub received: Seq<ReceivedModel>,
}

/// What all lines and payloads that have come in lead to, one after the other.
pub open spec fn heard(r: ReaderModel) -> HeardModel
    decreases r.unread.len(),
{
    if can_read(r) {
        let one = read_one(r);
        let rest = heard(one.reader);
        HeardModel { reader: rest.reader, received: seq![one.received] + rest.received }
    } else {
        HeardModel { reader: r, received: seq![] }
    }
}

/// The reader with more input. A closed one takes none.
pub open spec fn with_input(r: ReaderModel, input: Seq<u8>) -> ReaderModel {
    if r.due is Closed {
        r
    } else {
        ReaderModel { unread: r.unread + input, ..r }
    }
}

/// What the end of the input leads to, if something is left unread: a last line
/// needs no end, and of a last payload counts what is there.
pub open spec fn read_last(r: ReaderModel) -> Option<ReadModel> {
    let emptied = ReaderModel { unread: seq![], ..r };
    if r.unread.len() == 0 {
        None
    } else {
        match r.due {
            DueModel::Line => Some(line_read(emptied, r.unread)),
            DueModel::Payload { subject, len } => Some(
                payload_read(emptied, subject, crate::framing::at_most(r.unread, len)),
            ),
            DueModel::Closed => None,
        }
    }
}

/// What was received, without its storage.
pub open spec fn receipts(rs: Seq<Received>) -> Seq<ReceivedModel> {
    rs.map_values(|r: Received| r@)
}

impl Reader {
    /// Nothing has been read.
    pub fn new() -> (r: Reader)
        ensures
            r@ == (ReaderModel { due: DueModel::Line, unread: seq![] }),
    {
        Reader { due: Due::Line, inbox: Inbox::new() }
    }

    /// Whether the connection has to end.
    pub fn is_closed(&self) -> (r: bool)
        ensures
            r == (self@.due is Closed),
    {
        match self.due {
            Due::Closed => true,
            _ => false,
        }
    }

    /// What a line leads to.
    fn on_line(&mut self, line: Vec<u8>) -> (r: Received)
        ensures
            (ReadModel { reader: final(self)@, received: r@ }) == line_read(old(self)@, line@),
    {
        match read_text(line) {
            Some(text) => {
                self.due = Due::Line;
                match parse_server_line(text.as_str()) {
                    ServerLine::Message { subject, len } => {
                        self.due = Due::Payload { subject, len };
                        Received::Nothing
                    },
                    ServerLine::Ping => Received::Reply { frame: pong() },
                    ServerLine::Ignored => Received::Nothing,
                }
            },
            None => {
                self.due = Due::Closed;
                self.inbox = Inbox::new();
                Received::Close
            },
        }
    }

    /// What the next line or payload leads to, once it is whole.
    fn on_next(&mut self) -> (r: Option<Received>)
        ensures
            r is Some <==> can_read(old(self)@),
            r matches Some(x) ==> (ReadModel { reader: final(self)@, received: x@ }) == read_one(
                old(self)@,
            ),
            r is None ==> final(self)@ == old(self)@,
    {
        let mut due = Due::Closed;
        std::mem::swap(&mut due, &mut self.due);
        match due {
            Due::Line => {
                self.due = Due::Line;
                match self.inbox.take_line() {
                    Some(line) => Some(self.on_line(line)),
                    None => None,
                }
            },
            Due::Payload { subject, len } => match self.inbox.take_payload(len) {
                Some(payload) => {
                    self.due = Due::Line;
                    Some(Received::Message { message: Message { subject, payload } })
                },
                None => {
                    self.due = Due::Payload { subject, len };
                    None
                },
            },
            Due::Closed => None,
        }
    }

    /// What the next bytes of the server lead to: for each line and each payload
    /// that they complete, in order, a message, an answer to a ping, or nothing.
    pub fn on_bytes(&mut self, input: &[u8]) -> (rs: Vec<Received>)
        ensures
            (HeardModel { reader: final(self)@, received: receipts(rs@) }) == heard(
                with_input(old(self)@, input@),
            ),
    {
        if !self.is_closed() {
            self.inbox.receive(input);
        }
        let ghost goal = heard(with_input(old(self)@, input@));
        let mut rs: Vec<Received> = Vec::new();
        let mut more = true;
        proof {
            assert(self@ =~= with_input(old(self)@, input@));
            assert(receipts(rs@) + heard(self@).received =~= heard(self@).received);
        }
        while more
            invariant
                goal.reader == heard(self@).reader,
                goal.received == receipts(rs@) + heard(self@).received,
                !more ==> !can_read(self@),
            decreases
                    self@.unread.len(),
                    if more {
                        1int
                    } else {
                        0
                    },
        {
            let ghost before = *self;
            let ghost done = rs@;
            match self.on_next() {
                Some(r) => {
                    let ghost got = r;
                    rs.push(r);
                    proof {
                        lemma_reading_shortens(before@);
                        assert(receipts(rs@) =~= receipts(done).push(got@));
                        assert(receipts(done).push(got@) + heard(self@).received =~= receipts(done)
                            + (seq![got@] + heard(self@).received));
                    }
                },
                None => {
                    more = false;
                },
            }
        }
        proof {
            assert(receipts(rs@) + Seq::<ReceivedModel>::empty() =~= receipts(rs@));
        }
        rs
    }

    /// What the end of the server's output leads to.
    pub fn on_end(&mut self) -> (r: Option<Received>)
        ensures
            r is Some <==> read_last(old(self)@) is Some,
            r matches Some(x) ==> read_last(old(self)@) == Some(
                ReadModel { reader: final(self)@, received: x@ },
            ),
            r is None ==> final(self)@ == old(self)@,
    {
        if self.inbox.bytes.len() == 0 {
            return None;
        }
        let mut due = Due::Closed;
        std::mem::swap(&mut due, &mut self.due);
        match due {
            Due::Line => {
                self.due = Due::Line;
                let line = self.inbox.take_rest(None);
                Some(self.on_line(line))
            },
            Due::Payload { subject, len } => {
                self.due = Due::Line;
                let payload = self.inbox.take_rest(Some(len));
                Some(Received::Message { message: Message { subject, payload } })
            },
            Due::Closed => None,
        }
    }
}

proof fn lemma_reading_shortens(r: ReaderModel)
    requires
        can_read(r),
    ensures
        read_one(r).reader.unread.len() < r.unread.len(),
{
}

// ── Laws ──────────────────────────────────────────────────────────────────────

proof fn lemma_decimal_has_no_space(n: nat)
    ensures
        crate::decimal::decimal(n).len() > 0,
        !crate::decimal::decimal(n).contains(' '),
        !crate::text::is_space(crate::decimal::decimal(n).last()),
{
    let d = crate::decimal::decimal(n);
    crate::decimal::decimal_value(n);
    if d.contains(' ') {
        let i = d.index_of(' ');
        assert(crate::decimal::is_digit(d[i]));
    }
    assert(crate::decimal::is_digit(d[d.len() - 1]));
}

/// The broker reads the header of a published message as it was meant: the
/// subject and the length of the payload.
pub proof fn published_header_is_understood(subject: Seq<char>, len: nat)
    requires
        !subject.contains(' '),
        len <= usize::MAX,
    ensures
        crate::text::trimmed(pub_header(subject, len)) == pub_header(subject, len),
        crate::text::begins_with_word(pub_header(subject, len), "PUB"@),
        crate::broker::pub_command(pub_header(subject, len))
            == (crate::broker::CommandModel::Publish { subject, len }),
{
    let d = crate::decimal::decimal(len);
    let line = pub_header(subject, len);
    reveal_strlit("PUB ");
    reveal_strlit("PUB");
    reveal_strlit(" ");
    lemma_decimal_has_no_space(len);
    crate::decimal::decimal_round_trip(len, usize::MAX as nat);
    assert(line =~= "PUB"@ + seq![' '] + (subject + seq![' '] + d));
    assert(line.last() == d.last());
    assert(line[0] == 'P');
    crate::text::trimmed_unchanged(line);
    assert(line.take(3) =~= "PUB"@);
    crate::broker::upper_words_count(line, "PUB"@);
    assert(!"PUB"@.contains(' '));
    crate::text::splitn_of_joined("PUB"@, subject + seq![' '] + d, 3, ' ');
    crate::text::splitn_of_joined(subject, d, 2, ' ');
    crate::text::splitn_of_plain(d, 1, ' ');
    assert(crate::text::splitn(line, 3, ' ') =~= seq!["PUB"@, subject, d]);
}

/// A client reads the header of a delivered message as it was meant: the
/// subject and the length of the payload.
pub proof fn delivered_header_is_understood(subject: Seq<char>, sid: Seq<char>, len: nat)
    requires
        !subject.contains(' '),
        !sid.contains(' '),
        len <= usize::MAX,
    ensures
        crate::text::trimmed(crate::broker::msg_header(subject, sid, len))
            == crate::broker::msg_header(subject, sid, len),
        crate::text::begins_with_word(crate::broker::msg_header(subject, sid, len), "MSG"@),
        msg_line(crate::broker::msg_header(subject, sid, len)) == (ServerLineModel::Message {
            subject,
            len,
        }),
{
    let d = crate::decimal::decimal(len);
    let line = crate::broker::msg_header(subject, sid, len);
    reveal_strlit("MSG ");
    reveal_strlit("MSG");
    reveal_strlit(" ");
    lemma_decimal_has_no_space(len);
    crate::decimal::decimal_round_trip(len, usize::MAX as nat);
    let tail = sid + seq![' '] + d;
    assert(line =~= "MSG"@ + seq![' '] + (subject + seq![' '] + tail));
    assert(line.last() == d.last());
    assert(line[0] == 'M');
    crate::text::trimmed_unchanged(line);
    assert(line.take(3) =~= "MSG"@);
    crate::broker::upper_words_count(line, "MSG"@);
    assert(!"MSG"@.contains(' '));
    crate::text::splitn_of_joined("MSG"@, subject + seq![' '] + tail, 4, ' ');
    crate::text::splitn_of_joined(subject, tail, 3, ' ');
    crate::text::splitn_of_joined(sid, d, 2, ' ');
    crate::text::splitn_of_plain(d, 1, ' ');
    assert(crate::text::splitn(line, 4, ' ') =~= seq!["MSG"@, subject, sid, d]);
}

/// The broker reads a subscription as it was meant.
pub proof fn subscription_is_understood(subject: Seq<char>, sid: Seq<char>)
    requires
        !subject.contains(' '),
        sid.len() > 0,
        !sid.contains(' '),
        !crate::text::is_space(sid.last()),
    ensures
        crate::text::trimmed(sub_line(subject, sid)) == sub_line(subject, sid),
        crate::text::begins_with_word(sub_line(subject, sid), "SUB"@),
        crate::broker::sub_command(sub_line(subject, sid))
            == (crate::broker::CommandModel::Subscribe { subject, sid }),
{
    let line = sub_line(subject, sid);
    reveal_strlit("SUB ");
    reveal_strlit("SUB");
    reveal_strlit(" ");
    assert(line =~= "SUB"@ + seq![' '] + (subject + seq![' '] + sid));
    assert(line.last() == sid.last());
    assert(line[0] == 'S');
    crate::text::trimmed_unchanged(line);
    assert(line.take(3) =~= "SUB"@);
    crate::broker::upper_words_count(line, "SUB"@);
    assert(!"SUB"@.contains(' '));
    crate::text::splitn_of_joined("SUB"@, subject + seq![' '] + sid, 4, ' ');
    crate::text::splitn_of_joined(subject, sid, 3, ' ');
    crate::text::splitn_of_plain(sid, 2, ' ');
    assert(crate::text::splitn(line, 4, ' ') =~= seq!["SUB"@, subject, sid]);
}

/// The word at the start of a line, in any letter case, decides what the line
/// says.
pub proof fn word_decides(line: Seq<char>)
    ensures
        crate::text::begins_with_word(line, "MSG"@) ==> said_by(line) == msg_line(line),
        crate::text::begins_with_word(line, "PING"@) ==> said_by(line) == ServerLineModel::Ping,
{
    reveal_strlit("MSG");
    reveal_strlit("PING");
    if crate::text::begins_with_word(line, "MSG"@) && crate::text::begins_with_word(
        line,
        "PING"@,
    ) {
        let a = crate::text::ascii_uppercase(line.take(3));
        let b = crate::text::ascii_uppercase(line.take(4));
        assert(a[0] == crate::text::ascii_upper(line[0]));
        assert(b[0] == crate::text::ascii_upper(line[0]));
    }
}

/// How the bytes of the server are cut into reads makes no difference: the same
/// bytes in one piece are received as the same and leave the same reader.
pub proof fn reads_may_be_cut_anywhere(r: ReaderModel, a: Seq<u8>, b: Seq<u8>)
    ensures
        ({
            let first = heard(with_input(r, a));
            let second = heard(with_input(first.reader, b));
            let whole = heard(with_input(r, a + b));
            &&& whole.reader == second.reader
            &&& whole.received == first.received + second.received
        }),
{
    lemma_more_input(with_input(r, a), b);
    assert(with_input(r, a + b) =~= with_input(with_input(r, a), b)) by {
        assert(r.unread + (a + b) =~= r.unread + a + b);
    }
}

proof fn lemma_more_input(r: ReaderModel, more: Seq<u8>)
    ensures
        ({
            let first = heard(r);
            let second = heard(with_input(first.reader, more));
            let whole = heard(with_input(r, more));
            &&& whole.reader == second.reader
            &&& whole.received == first.received + second.received
        }),
    decreases r.unread.len(),
{
    let first = heard(r);
    let second = heard(with_input(first.reader, more));
    let longer = with_input(r, more);
    if can_read(r) {
        let one = read_one(r);
        lemma_reading_shortens(r);
        match r.due {
            DueModel::Line => {
                crate::framing::whole_lines_stay(r.unread, more);
            },
            DueModel::Payload { subject, len } => {
                crate::framing::whole_payloads_stay(r.unread, len, more);
            },
            DueModel::Closed => {},
        }
        assert(can_read(longer));
        assert(read_one(longer).reader =~= with_input(one.reader, more));
        assert(read_one(longer).received =~= one.received);
        lemma_more_input(one.reader, more);
        let rest = heard(one.reader);
        assert(seq![one.received] + (rest.received + second.received) =~= seq![one.received]
            + rest.received + second.received);
    } else {
        assert(first.received + second.received =~= second.received);
    }
}

/// What a client publishes, the broker reads back as it was: for every payload,
/// whatever bytes it holds, the message goes out under the same subject and with
/// the same payload, and nothing is left unread.
#[verifier::rlimit(60)]
pub proof fn published_frame_is_read_back(
    s: crate::broker::SessionModel,
    m: crate::broker::StateModel,
    subject: Seq<char>,
    payload: Seq<u8>,
)
    requires
        s.reading is Command,
        s.unread.len() == 0,
        !subject.contains(' '),
        !subject.contains('\n'),
        payload.len() <= usize::MAX,
    ensures
        crate::broker::served(
            crate::broker::with_input(s, pub_frame(subject, payload)),
            m,
        ) == (crate::broker::ServedModel {
            session: s,
            state: m,
            outcomes: seq![
                crate::broker::OutcomeModel::Silent,
                crate::broker::OutcomeModel::Publish {
                    payload,
                    clients: crate::broker::frames_for(m.client_subs, subject, payload),
                    internal: crate::broker::internal_for(m.internal_subs, subject),
                },
            ],
        }),
{
    let header = pub_header(subject, payload.len());
    let tail = payload + crate::broker::bytes_of(crate::broker::crlf());
    let start = crate::broker::with_input(s, pub_frame(subject, payload));
    published_header_is_understood(subject, payload.len());
    lemma_pub_header_is_a_line(subject, payload.len());
    crate::broker::word_decides(header);
    assert(start.unread =~= crate::broker::bytes_of(header + crate::broker::crlf()) + tail);
    crate::framing::text_lines_are_read_back(header, tail);
    let one = crate::broker::read_one(start, m);
    assert(one.session =~= crate::broker::SessionModel {
        reading: crate::broker::ReadingModel::Payload { subject, len: payload.len() },
        unread: tail,
        ..s
    });
    crate::framing::encoded_line_end();
    assert(tail =~= payload + seq![crate::framing::CR, crate::framing::LF] + Seq::<u8>::empty());
    crate::framing::payloads_are_read_back(payload, Seq::<u8>::empty());
    let two = crate::broker::read_one(one.session, one.state);
    assert(two.session =~= s);
    assert(!crate::framing::has_line(s.unread));
    let end = crate::broker::served(two.session, two.state);
    assert(end.outcomes =~= seq![]);
    let mid = crate::broker::served(one.session, one.state);
    assert(mid.outcomes =~= seq![two.outcome]);
    let all = crate::broker::served(start, m);
    assert(all.outcomes =~= seq![one.outcome, two.outcome]);
}

proof fn lemma_pub_header_is_a_line(subject: Seq<char>, len: nat)
    requires
        !subject.contains('\n'),
    ensures
        !pub_header(subject, len).contains('\n'),
{
    let d = crate::decimal::decimal(len);
    let line = pub_header(subject, len);
    reveal_strlit("PUB ");
    reveal_strlit(" ");
    crate::decimal::decimal_value(len);
    assert forall|i: int| 0 <= i < line.len() implies line[i] != '\n' by {
        let k = 4 + subject.len();
        if i < 4 {
            assert(line[i] == "PUB "@[i]);
        } else if i < k {
            assert(line[i] == subject[i - 4]);
            assert(subject.contains(subject[i - 4]));
        } else if i > k {
            assert(line[i] == d[i - k - 1]);
            assert(crate::decimal::is_digit(d[i - k - 1]));
        }
    }
}

/// What the broker delivers, a subscriber reads back as it was: for every
/// payload, whatever bytes it holds, the same subject and the same payload, and
/// nothing is left unread.
#[verifier::rlimit(60)]
pub proof fn delivered_frame_is_read_back(
    r: ReaderModel,
    subject: Seq<char>,
    sid: Seq<char>,
    payload: Seq<u8>,
)
    requires
        r.due is Line,
        r.unread.len() == 0,
        !subject.contains(' '),
        !subject.contains('\n'),
        !sid.contains(' '),
        !sid.contains('\n'),
        payload.len() <= usize::MAX,
    ensures
        heard(with_input(r, crate::broker::msg_frame(subject, sid, payload))) == (HeardModel {
            reader: r,
            received: seq![
                ReceivedModel::Nothing,
                ReceivedModel::Message { subject, payload },
            ],
        }),
{
    let header = crate::broker::msg_header(subject, sid, payload.len());
    let tail = payload + crate::broker::bytes_of(crate::broker::crlf());
    let start = with_input(r, crate::broker::msg_frame(subject, sid, payload));
    delivered_header_is_understood(subject, sid, payload.len());
    lemma_msg_header_is_a_line(subject, sid, payload.len());
    word_decides(header);
    assert(start.unread =~= crate::broker::bytes_of(header + crate::broker::crlf()) + tail);
    crate::framing::text_lines_are_read_back(header, tail);
    let one = read_one(start);
    assert(one.reader =~= ReaderModel {
        due: DueModel::Payload { subject, len: payload.len() },
        unread: tail,
    });
    crate::framing::encoded_line_end();
    assert(tail =~= payload + seq![crate::framing::CR, crate::framing::LF] + Seq::<u8>::empty());
    crate::framing::payloads_are_read_back(payload, Seq::<u8>::empty());
    let two = read_one(one.reader);
    assert(two.reader =~= r);
    let end = heard(two.reader);
    assert(end.received =~= seq![]);
    let mid = heard(one.reader);
    assert(mid.received =~= seq![two.received]);
    let all = heard(start);
    assert(all.received =~= seq![one.received, two.received]);
}

proof fn lemma_msg_header_is_a_line(subject: Seq<char>, sid: Seq<char>, len: nat)
    requires
        !subject.contains('\n'),
        !sid.contains('\n'),
    ensures
        !crate::broker::msg_header(subject, sid, len).contains('\n'),
{
    let d = crate::decimal::decimal(len);
    let line = crate::broker::msg_header(subject, sid, len);
    reveal_strlit("MSG ");
    reveal_strlit(" ");
    crate::decimal::decimal_value(len);
    assert forall|i: int| 0 <= i < line.len() implies line[i] != '\n' by {
        let k = 4 + subject.len();
        let l = k + 1 + sid.len();
        if i < 4 {
            assert(line[i] == "MSG "@[i]);
        } else if i < k {
            assert(line[i] == subject[i - 4]);
            assert(subject.contains(subject[i - 4]));
        } else if i == k {
            assert(line[i] == " "@[0]);
        } else if i < l {
            assert(line[i] == sid[i - k - 1]);
            assert(sid.contains(sid[i - k - 1]));
        } else if i == l {
            assert(line[i] == " "@[0]);
        } else {
            assert(line[i] == d[i - l - 1]);
            assert(crate::decimal::is_digit(d[i - l - 1]));
        }
    }
}

/// A subscription that a client sends is entered as it was meant.
#[verifier::rlimit(60)]
pub proof fn subscription_frame_is_read_back(
    s: crate::broker::SessionModel,
    m: crate::broker::StateModel,
    subject: Seq<char>,
    sid: Seq<char>,
)
    requires
        s.reading is Command,
        s.unread.len() == 0,
        !subject.contains(' '),
        !subject.contains('\n'),
        sid.len() > 0,
        !sid.contains(' '),
        !sid.contains('\n'),
        !crate::text::is_space(sid.last()),
    ensures
        crate::broker::served(
            crate::broker::with_input(
                s,
                crate::broker::bytes_of(sub_line(subject, sid) + crate::broker::crlf()),
            ),
            m,
        ) == (crate::broker::ServedModel {
            session: s,
            state: crate::broker::StateModel {
                client_subs: m.client_subs.push(
                    crate::broker::SubModel { pattern: subject, client: s.client, sid },
                ),
                ..m
            },
            outcomes: seq![crate::broker::OutcomeModel::Silent],
        }),
{
    let line = sub_line(subject, sid);
    let frame = crate::broker::bytes_of(line + crate::broker::crlf());
    let start = crate::broker::with_input(s, frame);
    let none = Seq::<u8>::empty();
    reveal_strlit("SUB ");
    reveal_strlit(" ");
    subscription_is_understood(subject, sid);
    crate::broker::word_decides(line);
    assert forall|i: int| 0 <= i < line.len() implies line[i] != '\n' by {
        let k = 4 + subject.len();
        if i < 4 {
            assert(line[i] == "SUB "@[i]);
        } else if i < k {
            assert(line[i] == subject[i - 4]);
            assert(subject.contains(subject[i - 4]));
        } else if i > k {
            assert(line[i] == sid[i - k - 1]);
            assert(sid.contains(sid[i - k - 1]));
        }
    }
    assert(start.unread =~= frame + none);
    crate::framing::text_lines_are_read_back(line, none);
    let one = crate::broker::read_one(start, m);
    assert(one.session =~= s);
    let end = crate::broker::served(one.session, one.state);
    assert(end.outcomes =~= seq![]);
    let all = crate::broker::served(start, m);
    assert(all.outcomes =~= seq![one.outcome]);
}

/// What one client publishes, a subscriber gets: the broker reads the frame,
/// sends one to every matching subscription, and the subscriber reads the same
/// subject and the same payload out of it, for every payload.
#[verifier::rlimit(60)]
pub proof fn published_message_is_delivered(
    s: crate::broker::SessionModel,
    m: crate::broker::StateModel,
    i: int,
    r: ReaderModel,
    subject: Seq<char>,
    payload: Seq<u8>,
)
    requires
        s.reading is Command,
        s.unread.len() == 0,
        r.due is Line,
        r.unread.len() == 0,
        0 <= i < m.client_subs.len(),
        crate::broker::matches_subject(m.client_subs[i].pattern, subject),
        !subject.contains(' '),
        !subject.contains('\n'),
        !m.client_subs[i].sid.contains(' '),
        !m.client_subs[i].sid.contains('\n'),
        payload.len() <= usize::MAX,
    ensures
        ({
            let sub = m.client_subs[i];
            let frame = crate::broker::msg_frame(subject, sub.sid, payload);
            let sent = crate::broker::served(
                crate::broker::with_input(s, pub_frame(subject, payload)),
                m,
            );
            &&& sent.outcomes.len() == 2
            &&& sent.outcomes[1] matches crate::broker::OutcomeModel::Publish {
                payload: p,
                clients,
                internal,
            } && p == payload && clients.contains((sub.client, frame))
            &&& heard(with_input(r, frame)).received.contains(
                ReceivedModel::Message { subject, payload },
            )
        }),
{
    let sub = m.client_subs[i];
    published_frame_is_read_back(s, m, subject, payload);
    delivered_frame_is_read_back(r, subject, sub.sid, payload);
    crate::broker::subscribers_get_messages(m.client_subs, i, subject, payload);
    let got = heard(with_input(r, crate::broker::msg_frame(subject, sub.sid, payload))).received;
    assert(got[1] == (ReceivedModel::Message { subject, payload }));
}

/// The coordinator's pattern for metrics matches the subject of every agent.
pub proof fn metrics_of_every_agent_match(agent_id: Seq<char>)
    ensures
        crate::broker::matches_subject(
            "loadpilot.metrics.>"@,
            crate::agent::metrics_subject_of(agent_id),
        ),
{
    reveal_strlit("loadpilot.metrics.>");
    reveal_strlit("loadpilot.metrics.");
    reveal_strlit("loadpilot");
    reveal_strlit("metrics");
    reveal_strlit(">");
    let a = "loadpilot"@;
    let b = "metrics"@;
    let rest = ">"@;
    assert(!a.contains('.'));
    assert(!b.contains('.'));
    assert(!rest.contains('.'));
    assert("loadpilot.metrics.>"@ =~= a + seq!['.'] + (b + seq!['.'] + rest));
    assert(crate::agent::metrics_subject_of(agent_id) =~= a + seq!['.'] + (b + seq!['.']
        + agent_id));
    crate::text::split_of_joined(a, b + seq!['.'] + rest, '.');
    crate::text::split_of_joined(b, rest, '.');
    crate::text::split_of_joined(a, b + seq!['.'] + agent_id, '.');
    crate::text::split_of_joined(b, agent_id, '.');
    crate::text::split_of_plain(rest, '.');
    let ids = crate::text::split(agent_id, '.');
    assert(crate::text::split("loadpilot.metrics.>"@, '.') =~= seq![a, b] + seq![rest]);
    assert(crate::text::split(crate::agent::metrics_subject_of(agent_id), '.') =~= seq![a, b]
        + ids);
    crate::broker::rest_wildcard_matches_any_rest(seq![a, b], ids);
}

/// A shard goes to its agent alone: the subject that an agent listens to is that
/// of its own shard and of no other, where its name holds no wildcard.
pub proof fn shards_go_to_their_agents(agent_id: Seq<char>, other: Seq<char>)
    requires
        crate::broker::is_plain(crate::text::split(agent_id, '.')),
    ensures
        crate::broker::matches_subject(
            crate::wire::shard_subject(agent_id),
            crate::wire::shard_subject(other),
        ) == (agent_id == other),
{
    reveal_strlit("loadpilot.shard.");
    reveal_strlit("loadpilot");
    reveal_strlit("shard");
    reveal_strlit(">");
    reveal_strlit("*");
    let a = "loadpilot"@;
    let b = "shard"@;
    let p = crate::wire::shard_subject(agent_id);
    let ids = crate::text::split(agent_id, '.');
    assert(!a.contains('.'));
    assert(!b.contains('.'));
    assert(p =~= a + seq!['.'] + (b + seq!['.'] + agent_id));
    crate::text::split_of_joined(a, b + seq!['.'] + agent_id, '.');
    crate::text::split_of_joined(b, agent_id, '.');
    let tokens = crate::text::split(p, '.');
    assert(tokens =~= seq![a, b] + ids);
    assert(a.len() == 9 && b.len() == 5 && ">"@.len() == 1 && "*"@.len() == 1);
    assert forall|i: int| 0 <= i < tokens.len() implies #[trigger] tokens[i] != ">"@ && tokens[i]
        != "*"@ by {
        if i >= 2 {
            assert(tokens[i] == ids[i - 2]);
        }
    }
    crate::broker::plain_pattern_matches_itself_alone(p, crate::wire::shard_subject(other));
    if p == crate::wire::shard_subject(other) {
        assert(p.skip(16) =~= agent_id);
        assert(crate::wire::shard_subject(other).skip(16) =~= other);
    }
}

/// The host is what stands before the port, or the whole address where there is
/// none.
pub proof fn hosts_stand_before_the_port(host: Seq<char>, port: Seq<char>)
    requires
        !host.contains(':'),
    ensures
        host_of(host + seq![':'] + port) == host,
        host_of(host) == host,
{
    let addr = host + seq![':'] + port;
    let n = host.len() as int;
    assert forall|i: int| 0 <= i < n implies #[trigger] addr[i] != ':' by {
        assert(host.contains(host[i]));
    }
    assert forall|i: int| 0 <= i < n implies #[trigger] host[i] != ':' by {
        assert(host.contains(host[i]));
    }
    crate::text::lemma_find_at(addr, ':', n);
    crate::text::lemma_find_at(host, ':', n);
    assert(addr.take(n) =~= host);
    assert(host.take(n) =~= host);
}

/// The scheme `tls://` is cut off as the other one is.
pub proof fn tls_scheme_is_cut_off(addr: Seq<char>)
    ensures
        crate::text::begins_with("tls://"@ + addr, "tls://"@),
        without_scheme("tls://"@ + addr) == addr,
{
    let url = "tls://"@ + addr;
    assert(url.take("tls://"@.len() as int) =~= "tls://"@);
    assert(url.skip("tls://"@.len() as int) =~= addr);
}

/// The connect message says whether TLS is wanted; a token comes in at its end, in
/// quotes, and changes nothing else.
pub proof fn connect_messages_carry_the_token(tls: bool, token: Seq<char>)
    ensures
        connect_message(true, None)
            == "CONNECT {\"verbose\":false,\"pedantic\":false,\"tls_required\":true}\r\n"@,
        connect_message(false, None)
            == "CONNECT {\"verbose\":false,\"pedantic\":false,\"tls_required\":false}\r\n"@,
        ({
            let plain = connect_message(tls, None);
            connect_message(tls, Some(token)) == plain.take(plain.len() - 3)
                + ",\"auth_token\":\""@ + crate::text::replaced(token, '"', seq!['\\', '"'])
                + "\"}\r\n"@
        }),
{
    reveal_strlit("CONNECT {\"verbose\":false,\"pedantic\":false,\"tls_required\":");
    reveal_strlit("CONNECT {\"verbose\":false,\"pedantic\":false,\"tls_required\":true}\r\n");
    reveal_strlit("CONNECT {\"verbose\":false,\"pedantic\":false,\"tls_required\":false}\r\n");
    reveal_strlit("true");
    reveal_strlit("false");
    reveal_strlit("");
    reveal_strlit("}\r\n");
    reveal_strlit("\"}\r\n");
    reveal_strlit("\"");
    reveal_strlit("\\\"");
    assert(connect_message(true, None)
        =~= "CONNECT {\"verbose\":false,\"pedantic\":false,\"tls_required\":true}\r\n"@);
    assert(connect_message(false, None)
        =~= "CONNECT {\"verbose\":false,\"pedantic\":false,\"tls_required\":false}\r\n"@);
    assert("\\\""@ =~= seq!['\\', '"']);
    let plain = connect_message(tls, None);
    let head = "CONNECT {\"verbose\":false,\"pedantic\":false,\"tls_required\":"@ + (if tls {
        "true"@
    } else {
        "false"@
    });
    assert(plain.take(plain.len() - 3) =~= head);
    assert(connect_message(tls, Some(token)) =~= head + ",\"auth_token\":\""@
        + crate::text::replaced(token, '"', seq!['\\', '"']) + "\"}\r\n"@);
}

/// A line that begins with neither of the two words says nothing that the client
/// needs.
pub proof fn other_lines_are_passed_over(line: Seq<char>)
    requires
        crate::text::is_ascii(line),
        crate::text::upper_form(line, crate::text::uppercase(line)),
        !crate::text::begins_with(crate::text::ascii_uppercase(line), "MSG"@),
        !crate::text::begins_with(crate::text::ascii_uppercase(line), "PING"@),
    ensures
        said_by(line) == ServerLineModel::Ignored,
{
    let upper = crate::text::ascii_uppercase(line);
    assert(upper == crate::text::uppercase(line));
    if crate::text::begins_with_word(line, "MSG"@) {
        crate::broker::upper_case_keeps_words(line, upper, "MSG"@);
    }
    if crate::text::begins_with_word(line, "PING"@) {
        crate::broker::upper_case_keeps_words(line, upper, "PING"@);
    }
}

/// A ping of the server is answered at once, and nothing else comes of it.
pub proof fn pings_are_answered(r: ReaderModel)
    requires
        r.due is Line,
        r.unread.len() == 0,
    ensures
        heard(with_input(r, crate::broker::bytes_of("PING\r\n"@))) == (HeardModel {
            reader: r,
            received: seq![ReceivedModel::Reply { frame: crate::broker::bytes_of("PONG\r\n"@) }],
        }),
{
    reveal_strlit("PING");
    reveal_strlit("PING\r\n");
    reveal_strlit("\r\n");
    let text = "PING"@;
    let frame = crate::broker::bytes_of("PING\r\n"@);
    let none = Seq::<u8>::empty();
    assert("PING\r\n"@ =~= text + crate::broker::crlf());
    assert(!text.contains('\n'));
    assert(text.last() != '\r');
    crate::text::trimmed_unchanged(text);
    assert(text.take(4) =~= text);
    crate::broker::upper_words_count(text, text);
    word_decides(text);
    crate::framing::text_lines_are_read_back(text, none);
    let start = with_input(r, frame);
    assert(frame + none =~= frame);
    assert(start.unread =~= frame);
    let one = read_one(start);
    let end = heard(one.reader);
    assert(one.reader =~= r);
    assert(end.received =~= seq![]);
    assert(heard(start).received =~= seq![one.received]);
}

/// A line that is no text ends the connection, and all later input is dropped.
pub proof fn broken_lines_end_the_connection(
    r: ReaderModel,
    line: Seq<u8>,
    rest: Seq<u8>,
    more: Seq<u8>,
)
    requires
        r.due is Line,
        r.unread.len() == 0,
        !line.contains(10u8),
        !vstd::utf8::valid_utf8(line),
    ensures
        ({
            let a = heard(with_input(r, line + seq![13u8, 10u8] + rest));
            &&& a.reader.due is Closed
            &&& a.reader.unread.len() == 0
            &&& a.received == seq![ReceivedModel::Close]
            &&& with_input(a.reader, more) == a.reader
        }),
{
    let input = line + seq![13u8, 10u8] + rest;
    assert forall|j: int| 0 <= j < line.len() implies #[trigger] line[j] != 10u8 by {
        assert(line.contains(line[j]));
    }
    crate::framing::lines_are_read_back(line, rest);
    let start = with_input(r, input);
    assert(start.unread =~= input);
    let one = read_one(start);
    let none = heard(one.reader);
    assert(none.received =~= seq![]);
    assert(heard(start).received =~= seq![ReceivedModel::Close]);
}

/// At the end of the input a last line counts as if its end had come, and of a last
/// payload counts what is there, up to its length.
pub proof fn last_input_counts(r: ReaderModel, subject: Seq<char>, len: nat)
    requires
        r.unread.len() > 0,
    ensures
        r.due is Line && !r.unread.contains(10u8) && r.unread.last() != 13u8 ==> {
            let ended = read_one(ReaderModel { unread: r.unread + seq![10u8], ..r });
            &&& read_last(r) is Some
            &&& read_last(r)->0.received == ended.received
            &&& read_last(r)->0.reader == ended.reader
        },
        r.due == (DueModel::Payload { subject, len }) && r.unread.len() <= len ==> read_last(r)
            is Some && read_last(r)->0.received == (ReceivedModel::Message {
            subject,
            payload: r.unread,
        }),
        r.due == (DueModel::Payload { subject, len }) && r.unread.len() > len ==> read_last(r)
            is Some && read_last(r)->0.received == (ReceivedModel::Message {
            subject,
            payload: r.unread.take(len as int),
        }),
{
    if r.due is Line && !r.unread.contains(10u8) && r.unread.last() != 13u8 {
        crate::framing::bare_lines_are_read_back(r.unread);
    }
}

/// The models of a reader, of a line and of what was received are what they hold.
pub proof fn readers_are_their_model(r: Reader, l: ServerLine, rs: Seq<Received>, i: int)
    requires
        0 <= i < rs.len(),
    ensures
        r@.unread == r.inbox@,
        r.due is Line <==> r@.due is Line,
        r.due is Closed <==> r@.due is Closed,
        r.due matches Due::Payload { subject, len } ==> r@.due == (DueModel::Payload {
            subject: subject@,
            len: len as nat,
        }),
        l is Ping <==> l@ is Ping,
        l is Ignored <==> l@ is Ignored,
        l matches ServerLine::Message { subject, len } ==> l@ == (ServerLineModel::Message {
            subject: subject@,
            len: len as nat,
        }),
        receipts(rs).len() == rs.len(),
        rs[i] is Nothing <==> receipts(rs)[i] is Nothing,
        rs[i] is Close <==> receipts(rs)[i] is Close,
        rs[i] matches Received::Message { message } ==> receipts(rs)[i] == (
        ReceivedModel::Message { subject: message.subject@, payload: message.payload@ }),
        rs[i] matches Received::Reply { frame } ==> receipts(rs)[i] == (ReceivedModel::Reply {
            frame: frame@,
        }),
{
}

} // verus!
