//! The application: the pure state machine driven by the effect runtime.
//!
//! It owns the per-client derived view state, the serial connection state
//! and the broadcast clock, and turns each arriving message into a new state
//! plus the commands to publish — without ever touching I/O itself.

use vstd::prelude::*;
use crate::eff::EffectCommandFilter;
use crate::http;
use crate::protocol::{
    ClientMessage,
    ClientMessageRequest,
    ClientMessageRequestV,
    ClientMessageV,
    quoted,
    render_response,
    response_json,
};
use crate::serial::{
    OuputParser,
    SerialCommandMap,
    SerialConfiguration,
    SerialConfigurationV,
    WireText,
};
use crate::text::{
    append_u32,
    chars_of,
    dec_digits,
    find_char,
    find_in,
    lemma_find_in,
    push_char,
    str_eq,
};
use crate::json::append_json_quoted;

verus! {

/// How many history entries a client's derived state keeps: pushing onto a
/// full history drops the oldest entry.
pub const HISTORY_LIMIT: usize = 64;

/// One remembered interaction of a client: a command it sent, or data the
/// device produced while it was connected.
#[derive(Debug)]
pub enum ClientHistoryEntry {
    SentCommand(ClientMessage),
    ReceivedData(String),
}

/// The mathematical form of a history entry.
pub ghost enum ClientHistoryEntryV {
    SentCommand(ClientMessageV),
    ReceivedData(Seq<char>),
}

impl View for ClientHistoryEntry {
    type V = ClientHistoryEntryV;

    open spec fn view(&self) -> ClientHistoryEntryV {
        match self {
            ClientHistoryEntry::SentCommand(m) => ClientHistoryEntryV::SentCommand(m@),
            ClientHistoryEntry::ReceivedData(content) => ClientHistoryEntryV::ReceivedData(
                content@,
            ),
        }
    }
}

/// The per-client derived view state: the client's request counter, its
/// bounded interaction history, whether the serial connection is available,
/// and the last applied serial configuration.
#[derive(Debug)]
pub struct DerivedClientState {
    pub tick: u32,
    pub history: Vec<ClientHistoryEntry>,
    pub serial_available: bool,
    pub last_config: Option<SerialConfiguration>,
}

/// The mathematical form of a client's derived state.
pub ghost struct DerivedClientStateV {
    pub tick: u32,
    pub history: Seq<ClientHistoryEntryV>,
    pub serial_available: bool,
    pub last_config: Option<SerialConfigurationV>,
}

impl View for DerivedClientState {
    type V = DerivedClientStateV;

    open spec fn view(&self) -> DerivedClientStateV {
        DerivedClientStateV {
            tick: self.tick,
            history: Seq::new(self.history@.len(), |i: int| self.history@[i]@),
            serial_available: self.serial_available,
            last_config: match self.last_config {
                Some(config) => Some(config@),
                None => None,
            },
        }
    }
}

/// A history with one more entry, the oldest dropped when full.
pub open spec fn push_bounded(
    h: Seq<ClientHistoryEntryV>,
    e: ClientHistoryEntryV,
) -> Seq<ClientHistoryEntryV> {
    if h.len() < HISTORY_LIMIT {
        h.push(e)
    } else {
        h.skip(1).push(e)
    }
}

impl DerivedClientState {
    /// The state a just-connected client starts from.
    pub fn fresh(serial_available: bool, last_config: Option<SerialConfiguration>) -> (r:
        DerivedClientState)
        ensures
            r@ == (DerivedClientStateV {
                tick: 0u32,
                history: Seq::<ClientHistoryEntryV>::empty(),
                serial_available,
                last_config: match last_config {
                    Some(config) => Some(config@),
                    None => None,
                },
            }),
    {
        let r = DerivedClientState { tick: 0, history: Vec::new(), serial_available, last_config };
        proof {
            assert(r@.history =~= Seq::<ClientHistoryEntryV>::empty());
        }
        r
    }

    /// Appends one entry to the history, dropping the oldest when full.
    pub fn push_history(&mut self, entry: ClientHistoryEntry)
        ensures
            final(self)@ == (DerivedClientStateV {
                history: push_bounded(old(self)@.history, entry@),
                ..old(self)@
            }),
    {
        if self.history.len() >= HISTORY_LIMIT {
            self.history.remove(0);
            proof {
                assert(self@.history =~= old(self)@.history.skip(1));
            }
        }
        let ghost mid = self@.history;
        self.history.push(entry);
        proof {
            assert(self@.history =~= mid.push(entry@));
        }
    }
}

/// The kind token of a request, as the wire writes it.
pub open spec fn request_kind_str(r: ClientMessageRequestV) -> Seq<char> {
    match r {
        ClientMessageRequestV::RawSerial(_) => "raw_serial"@,
        ClientMessageRequestV::Configuration(_) => "configuration"@,
        ClientMessageRequestV::CloseSerial => "close_serial"@,
        ClientMessageRequestV::RetrySerial => "retry_serial"@,
    }
}

/// The JSON of one sent-command history entry.
pub open spec fn sent_json(m: ClientMessageV) -> Seq<char> {
    "{\"history_kind\":\"sent_command\",\"tick\":"@ + dec_digits(m.tick as nat) + ",\"kind\":\""@
        + request_kind_str(m.request) + "\""@ + (match m.request {
        ClientMessageRequestV::RawSerial(value) => ",\"value\":"@ + quoted(value),
        _ => Seq::<char>::empty(),
    }) + "}"@
}

/// The JSON of one history entry.
pub open spec fn entry_json(e: ClientHistoryEntryV) -> Seq<char> {
    match e {
        ClientHistoryEntryV::SentCommand(m) => sent_json(m),
        ClientHistoryEntryV::ReceivedData(content) => "{\"history_kind\":\"received_data\",\"content\":"@
            + quoted(content) + "}"@,
    }
}

/// The JSON of a whole history: its entries, comma-separated.
pub open spec fn history_json(h: Seq<ClientHistoryEntryV>) -> Seq<char>
    decreases h.len(),
{
    if h.len() == 0 {
        Seq::empty()
    } else if h.len() == 1 {
        entry_json(h[0])
    } else {
        history_json(h.drop_last()) + seq![','] + entry_json(h.last())
    }
}

/// The JSON of a stored configuration, or `null` for none.
pub open spec fn config_json(c: Option<SerialConfigurationV>) -> Seq<char> {
    match c {
        None => "null"@,
        Some(config) => "{\"device\":"@ + quoted(config.device) + ",\"baud\":"@ + dec_digits(
            config.baud as nat,
        ) + "}"@,
    }
}

/// The JSON of one client's derived state, as pushed to that client.
pub open spec fn state_json(c: DerivedClientStateV) -> Seq<char> {
    "{\"kind\":\"state\",\"tick\":"@ + dec_digits(c.tick as nat) + ",\"history\":["@ + history_json(
        c.history,
    ) + "],\"serial_available\":"@ + (if c.serial_available {
        "true"@
    } else {
        "false"@
    }) + ",\"last_config\":"@ + config_json(c.last_config) + "}"@
}

/// Appends the JSON of one sent-command history entry.
fn append_sent(out: &mut String, m: &ClientMessage)
    ensures
        final(out)@ == old(out)@ + sent_json(m@),
{
    out.append("{\"history_kind\":\"sent_command\",\"tick\":");
    append_u32(out, m.tick);
    out.append(",\"kind\":\"");
    match &m.request {
        ClientMessageRequest::RawSerial(value) => {
            out.append("raw_serial");
            out.append("\"");
            out.append(",\"value\":");
            append_json_quoted(out, value.as_str());
        },
        ClientMessageRequest::Configuration(_) => {
            out.append("configuration");
            out.append("\"");
        },
        ClientMessageRequest::CloseSerial => {
            out.append("close_serial");
            out.append("\"");
        },
        ClientMessageRequest::RetrySerial => {
            out.append("retry_serial");
            out.append("\"");
        },
    }
    out.append("}");
    proof {
        assert(out@ =~= old(out)@ + sent_json(m@));
    }
}

/// Appends the JSON of one history entry.
fn append_entry(out: &mut String, e: &ClientHistoryEntry)
    ensures
        final(out)@ == old(out)@ + entry_json(e@),
{
    match e {
        ClientHistoryEntry::SentCommand(m) => {
            append_sent(out, m);
        },
        ClientHistoryEntry::ReceivedData(content) => {
            out.append("{\"history_kind\":\"received_data\",\"content\":");
            append_json_quoted(out, content.as_str());
            out.append("}");
            proof {
                assert(out@ =~= old(out)@ + entry_json(e@));
            }
        },
    }
}

/// Renders one client's derived state for the wire.
pub fn render_state(c: &DerivedClientState) -> (r: String)
    ensures
        r@ == state_json(c@),
{
    let mut out = String::new();
    out.append("{\"kind\":\"state\",\"tick\":");
    append_u32(&mut out, c.tick);
    out.append(",\"history\":[");
    let ghost before_history = out@;
    let n = c.history.len();
    let mut i: usize = 0;
    while i < n
        invariant
            i <= n,
            n == c.history@.len(),
            c@.history.len() == n,
            out@ == before_history + history_json(c@.history.subrange(0, i as int)),
        decreases n - i,
    {
        if i > 0 {
            out.append(",");
        }
        append_entry(&mut out, &c.history[i]);
        proof {
            reveal_strlit(",");
            assert(","@ =~= seq![',']);
            assert(c@.history.subrange(0, i + 1 as int).drop_last() =~= c@.history.subrange(
                0,
                i as int,
            ));
            assert(c@.history.subrange(0, i + 1 as int).last() == c@.history[i as int]);
            assert(c@.history[i as int] == c.history@[i as int]@);
            assert(out@ =~= before_history + history_json(c@.history.subrange(0, i + 1 as int)));
        }
        i += 1;
    }
    proof {
        assert(c@.history.subrange(0, n as int) =~= c@.history);
        assert(out@ =~= before_history + history_json(c@.history));
    }
    out.append("],\"serial_available\":");
    if c.serial_available {
        out.append("true");
    } else {
        out.append("false");
    }
    out.append(",\"last_config\":");
    match &c.last_config {
        None => {
            out.append("null");
        },
        Some(config) => {
            out.append("{\"device\":");
            append_json_quoted(&mut out, config.device.as_str());
            out.append(",\"baud\":");
            append_u32(&mut out, config.baud);
            out.append("}");
        },
    }
    out.append("}");
    proof {
        assert(out@ =~= state_json(c@));
    }
    out
}

/// A command addressed to the serial manager: raw line text, a status
/// request, a configuration change, or the manual connect/disconnect latch.
#[derive(Debug)]
pub enum SerialCommand {
    Raw(String),
    Status,
    Configure(SerialConfiguration),
    Control(bool),
}

impl WireText for SerialCommand {
    /// Raw text goes over the wire newline-terminated; a status request is
    /// the bare `?` line; the control and configure commands put nothing on
    /// the wire.
    open spec fn wire(&self) -> Seq<char> {
        match self {
            SerialCommand::Raw(inner) => inner@ + "\n"@,
            SerialCommand::Status => "?\n"@,
            SerialCommand::Configure(_) => Seq::empty(),
            SerialCommand::Control(_) => Seq::empty(),
        }
    }

    fn to_wire(&self) -> (r: String) {
        match self {
            SerialCommand::Raw(inner) => {
                let mut out = inner.clone();
                out.append("\n");
                out
            },
            SerialCommand::Status => String::from_str("?\n"),
            SerialCommand::Configure(_) => {
                let r = String::new();
                proof {
                    assert(r@ =~= self.wire());
                }
                r
            },
            SerialCommand::Control(_) => {
                let r = String::new();
                proof {
                    assert(r@ =~= self.wire());
                }
                r
            },
        }
    }
}

/// A command the application publishes: for the serial manager or for the
/// gateway.
#[derive(Debug)]
pub enum Command {
    Serial(SerialCommand),
    Http(http::Command),
}

/// A message the application consumes: the serial poll tick and the
/// broadcast tick (each carrying the time it fired), a parsed line of device
/// output, a gateway observation, and the serial connection edges.
#[derive(Debug)]
pub enum Message {
    Tick { now_ms: u64 },
    Broadcast { now_ms: u64 },
    Serial(String),
    Http(http::Message),
    DisconnectedSerial,
    ConnectedSerial,
}

/// Accepts exactly the serial commands.
pub struct SerialFilter {}

impl EffectCommandFilter for SerialFilter {
    type Command = Command;

    open spec fn accepts(&self, command: &Command) -> bool {
        command is Serial
    }

    fn sendable(&self, command: &Command) -> (r: bool) {
        matches!(command, Command::Serial(_))
    }
}

/// Accepts nothing: the tickers consume no commands.
pub struct TickFilter {}

impl EffectCommandFilter for TickFilter {
    type Command = Command;

    open spec fn accepts(&self, command: &Command) -> bool {
        false
    }

    fn sendable(&self, command: &Command) -> (r: bool) {
        false
    }
}

/// Accepts exactly the gateway commands.
pub struct HttpFilter {}

impl EffectCommandFilter for HttpFilter {
    type Command = Command;

    open spec fn accepts(&self, command: &Command) -> bool {
        command is Http
    }

    fn sendable(&self, command: &Command) -> (r: bool) {
        matches!(command, Command::Http(_))
    }
}

/// The application's routing table entry: one filter per registered manager,
/// chosen at wiring time.
pub enum AppCommandFilter {
    Tick(TickFilter),
    Serial(SerialFilter),
    Http(HttpFilter),
}

impl EffectCommandFilter for AppCommandFilter {
    type Command = Command;

    open spec fn accepts(&self, command: &Command) -> bool {
        match self {
            AppCommandFilter::Tick(f) => f.accepts(command),
            AppCommandFilter::Serial(f) => f.accepts(command),
            AppCommandFilter::Http(f) => f.accepts(command),
        }
    }

    fn sendable(&self, command: &Command) -> (r: bool) {
        match self {
            AppCommandFilter::Tick(f) => f.sendable(command),
            AppCommandFilter::Serial(f) => f.sendable(command),
            AppCommandFilter::Http(f) => f.sendable(command),
        }
    }
}

/// The gateway's half of a routed command: the payload of a gateway command,
/// and nothing for a command owned by another manager.
pub fn into_http(command: Command) -> (r: Option<http::Command>)
    ensures
        match command {
            Command::Http(inner) => r == Some(inner),
            Command::Serial(_) => r is None,
        },
{
    match command {
        Command::Http(inner) => Some(inner),
        Command::Serial(_) => None,
    }
}

/// Maps the application's commands and messages onto the serial manager's.
pub struct SerialMap {}

impl SerialCommandMap<SerialCommand> for SerialMap {
    type Command = Command;

    type Message = Message;

    open spec fn spec_translate(&self, original: Command) -> Option<
        crate::serial::SerialCommand<SerialCommand>,
    > {
        match original {
            Command::Serial(SerialCommand::Control(inner)) => Some(
                crate::serial::SerialCommand::Control(inner),
            ),
            Command::Serial(SerialCommand::Configure(config)) => Some(
                crate::serial::SerialCommand::Configure(config),
            ),
            Command::Serial(inner) => Some(crate::serial::SerialCommand::Data(inner)),
            Command::Http(_) => None,
        }
    }

    fn translate(&self, original: Command) -> (r: Option<
        crate::serial::SerialCommand<SerialCommand>,
    >) {
        match original {
            Command::Serial(SerialCommand::Control(inner)) => Some(
                crate::serial::SerialCommand::Control(inner),
            ),
            Command::Serial(SerialCommand::Configure(config)) => Some(
                crate::serial::SerialCommand::Configure(config),
            ),
            Command::Serial(inner) => Some(crate::serial::SerialCommand::Data(inner)),
            Command::Http(_) => None,
        }
    }

    open spec fn disconnected_message(&self) -> Message {
        Message::DisconnectedSerial
    }

    fn disconnected(&self) -> (r: Message) {
        Message::DisconnectedSerial
    }

    open spec fn connected_message(&self) -> Message {
        Message::ConnectedSerial
    }

    fn connected(&self) -> (r: Message) {
        Message::ConnectedSerial
    }
}

/// The character a raw device byte stands for: itself below 0x80, the
/// replacement character otherwise.
pub open spec fn byte_to_char(b: u8) -> char {
    if b < 128 {
        b as char
    } else {
        '\u{fffd}'
    }
}

/// The text of the first `end` bytes of device output.
pub open spec fn line_chars(data: Seq<u8>, end: int) -> Seq<char> {
    Seq::new(end as nat, |i: int| byte_to_char(data[i]))
}

/// How many complete, newline-terminated frames the buffer holds.
pub open spec fn newline_count(data: Seq<u8>) -> nat
    decreases data.len(),
{
    if data.len() == 0 {
        0
    } else {
        (if data[0] == 10 {
            1nat
        } else {
            0nat
        }) + newline_count(data.skip(1))
    }
}

/// A newline-free prefix holds no frame boundary.
proof fn lemma_newline_count_skip(data: Seq<u8>, j: int)
    requires
        0 <= j <= data.len(),
        forall|k: int| 0 <= k < j ==> data[k] != 10,
    ensures
        newline_count(data) == newline_count(data.skip(j)),
    decreases j,
{
    if j > 0 {
        assert(data[0] != 10);
        assert(data.skip(1).skip(j - 1) =~= data.skip(j));
        assert(forall|k: int| 0 <= k < j - 1 ==> data.skip(1)[k] != 10);
        lemma_newline_count_skip(data.skip(1), j - 1);
    } else {
        assert(data.skip(0) =~= data);
    }
}

/// The serial manager's line parser: one message per newline-terminated
/// line, each byte read as text.
pub struct SerialParser {}

impl OuputParser for SerialParser {
    type Message = Message;

    open spec fn parses_to(&self, data: Seq<u8>, message: Message, taken: int) -> bool {
        let nl = crate::text::find_u8_in(data, 10, 0, data.len() as int);
        &&& nl < data.len()
        &&& taken == nl + 1
        &&& message matches Message::Serial(line) && line@ == line_chars(data, nl)
    }

    open spec fn yields_nothing(&self, data: Seq<u8>) -> bool {
        crate::text::find_u8_in(data, 10, 0, data.len() as int) == data.len()
    }

    fn parse(&self, data: &[u8]) -> (r: Option<(Message, usize)>) {
        let n = data.len();
        let nl = crate::text::find_u8(data, 10, 0, n);
        proof {
            crate::text::lemma_find_u8_in(data@, 10, 0, n as int);
        }
        if nl >= n {
            return None;
        }
        let mut line = String::new();
        let mut i: usize = 0;
        while i < nl
            invariant
                i <= nl < n,
                n == data@.len(),
                line@ == line_chars(data@, i as int),
            decreases nl - i,
        {
            let b = data[i];
            if b < 128 {
                push_char(&mut line, b as char);
            } else {
                push_char(&mut line, '\u{fffd}');
            }
            proof {
                assert(line@ =~= line_chars(data@, i + 1 as int));
            }
            i += 1;
        }
        Some((Message::Serial(line), nl + 1))
    }
}

/// Parser progress: a buffer holding no complete frame yields nothing; a
/// parse of a buffer holding one or more complete frames consumes a strictly
/// positive count of bytes, returns one decoded message, and leaves a buffer
/// holding exactly one frame fewer. Repeated parsing therefore drains every
/// complete frame and leaves only the trailing partial one.
pub proof fn lemma_parser_progress(
    parser: SerialParser,
    data: Seq<u8>,
    message: Message,
    taken: int,
)
    ensures
        parser.yields_nothing(data) <==> newline_count(data) == 0,
        parser.parses_to(data, message, taken) ==> 0 < taken <= data.len() && newline_count(
            data.skip(taken),
        ) == newline_count(data) - 1,
{
    let len = data.len() as int;
    let nl = crate::text::find_u8_in(data, 10, 0, len);
    crate::text::lemma_find_u8_in(data, 10, 0, len);
    if nl == len {
        lemma_newline_count_skip(data, len);
        assert(data.skip(len) =~= Seq::<u8>::empty());
    } else {
        lemma_newline_count_skip(data, nl);
        assert(data.skip(nl)[0] == data[nl]);
        assert(data.skip(nl).skip(1) =~= data.skip(nl + 1));
        assert(newline_count(data.skip(nl)) == 1 + newline_count(data.skip(nl + 1)));
    }
}

/// One known client: its identifier and its derived view state.
pub struct ClientSlot {
    pub id: String,
    pub state: DerivedClientState,
}

/// The map of connected clients, in connection order, one slot per
/// identifier.
pub struct ClientMap {
    pub entries: Vec<ClientSlot>,
}

impl View for ClientMap {
    type V = Seq<(Seq<char>, DerivedClientStateV)>;

    open spec fn view(&self) -> Seq<(Seq<char>, DerivedClientStateV)> {
        Seq::new(self.entries@.len(), |i: int| (self.entries@[i].id@, self.entries@[i].state@))
    }
}

impl ClientMap {
    /// Whether an identifier is known.
    pub open spec fn contains_id(&self, id: Seq<char>) -> bool {
        exists|i: int| 0 <= i < self@.len() && self@[i].0 == id
    }

    /// Each identifier is known at most once.
    pub open spec fn wf(&self) -> bool {
        forall|i: int, j: int|
            0 <= i < j < self@.len() ==> #[trigger] self@[i].0 != #[trigger] self@[j].0
    }

    /// An empty map.
    pub fn new() -> (r: ClientMap)
        ensures
            r@ == Seq::<(Seq<char>, DerivedClientStateV)>::empty(),
            r.wf(),
    {
        let r = ClientMap { entries: Vec::new() };
        proof {
            assert(r@ =~= Seq::<(Seq<char>, DerivedClientStateV)>::empty());
        }
        r
    }

    /// How many clients are known.
    pub fn len(&self) -> (r: usize)
        ensures
            r == self@.len(),
    {
        self.entries.len()
    }

    /// Whether an identifier is known.
    pub fn contains(&self, id: &str) -> (r: bool)
        ensures
            r == self.contains_id(id@),
    {
        let n = self.entries.len();
        let mut i: usize = 0;
        while i < n
            invariant
                i <= n,
                n == self@.len(),
                forall|k: int| 0 <= k < i ==> self@[k].0 != id@,
            decreases n - i,
        {
            if str_eq(self.entries[i].id.as_str(), id) {
                proof {
                    assert(self@[i as int].0 == id@);
                }
                return true;
            }
            i += 1;
        }
        proof {
            assert(!self.contains_id(id@)) by {
                if self.contains_id(id@) {
                    let k = choose|k: int| 0 <= k < self@.len() && self@[k].0 == id@;
                }
            }
        }
        false
    }

    /// Removes one identifier's slot, keeping every other slot in order;
    /// removing an unknown identifier changes nothing.
    pub fn remove_id(&mut self, id: &str)
        requires
            old(self).wf(),
        ensures
            final(self).wf(),
            !final(self).contains_id(id@),
            !old(self).contains_id(id@) ==> final(self)@ == old(self)@,
            old(self).contains_id(id@) ==> exists|i: int|
                0 <= i < old(self)@.len() && old(self)@[i].0 == id@ && final(self)@ == old(
                    self,
                )@.remove(i),
    {
        let n = self.entries.len();
        let mut i: usize = 0;
        while i < n
            invariant
                old(self).wf(),
                i <= n,
                n == self@.len(),
                forall|k: int| 0 <= k < i ==> self@[k].0 != id@,
                *self == *old(self),
            decreases n - i,
        {
            if str_eq(self.entries[i].id.as_str(), id) {
                proof {
                    assert(old(self)@[i as int].0 == id@);
                }
                self.entries.remove(i);
                proof {
                    let ghost oldv = old(self)@;
                    assert(self@ =~= oldv.remove(i as int));
                    assert forall|j: int| 0 <= j < oldv.len() && j != i implies oldv[j].0
                        != id@ by {
                        if j >= i {
                            assert(oldv[i as int].0 != oldv[j].0);
                        }
                    }
                    assert forall|a: int, b: int|
                        0 <= a < b < self@.len() implies self@[a].0 != self@[b].0 by {
                        let a0: int = if a < i { a } else { a + 1 };
                        let b0: int = if b < i { b } else { b + 1 };
                        assert(self@[a] == oldv[a0]);
                        assert(self@[b] == oldv[b0]);
                        assert(oldv[a0].0 != oldv[b0].0);
                    }
                    assert(!self.contains_id(id@)) by {
                        if self.contains_id(id@) {
                            let k = choose|k: int| 0 <= k < self@.len() && self@[k].0 == id@;
                            if k < i {
                                assert(oldv[k].0 != id@);
                            } else {
                                assert(self@[k] == oldv[k + 1]);
                                assert(oldv[k + 1].0 != id@);
                            }
                        }
                    }
                }
                return ;
            }
            i += 1;
        }
        proof {
            assert(!self.contains_id(id@)) by {
                if self.contains_id(id@) {
                    let k = choose|k: int| 0 <= k < self@.len() && self@[k].0 == id@;
                }
            }
        }
    }

    /// Registers one client: a fresh identifier is appended after all
    /// others; a known identifier's slot is replaced in place.
    pub fn insert(&mut self, id: String, state: DerivedClientState)
        requires
            old(self).wf(),
        ensures
            final(self).wf(),
            final(self).contains_id(id@),
            !old(self).contains_id(id@) ==> final(self)@ == old(self)@.push((id@, state@)),
            old(self).contains_id(id@) ==> exists|i: int|
                0 <= i < old(self)@.len() && old(self)@[i].0 == id@ && final(self)@ == old(
                    self,
                )@.update(i, (id@, state@)),
    {
        let n = self.entries.len();
        let mut i: usize = 0;
        while i < n
            invariant
                old(self).wf(),
                i <= n,
                n == self@.len(),
                forall|k: int| 0 <= k < i ==> self@[k].0 != id@,
                *self == *old(self),
            decreases n - i,
        {
            if str_eq(self.entries[i].id.as_str(), id.as_str()) {
                proof {
                    assert(old(self)@[i as int].0 == id@);
                }
                let slot = ClientSlot { id, state };
                self.entries.set(i, slot);
                proof {
                    let ghost oldv = old(self)@;
                    assert(self@ =~= oldv.update(i as int, (id@, state@)));
                    assert(self@[i as int].0 == id@);
                    assert forall|a: int, b: int|
                        0 <= a < b < self@.len() implies self@[a].0 != self@[b].0 by {
                        assert(oldv[a].0 != oldv[b].0);
                        assert(self@[a].0 == oldv[a].0);
                        assert(self@[b].0 == oldv[b].0);
                    }
                }
                return ;
            }
            i += 1;
        }
        self.entries.push(ClientSlot { id, state });
        proof {
            let ghost oldv = old(self)@;
            assert(self@ =~= oldv.push((id@, state@)));
            assert(self@[n as int].0 == id@);
            assert forall|a: int, b: int|
                0 <= a < b < self@.len() implies self@[a].0 != self@[b].0 by {
                if b < n {
                    assert(oldv[a].0 != oldv[b].0);
                    assert(self@[a].0 == oldv[a].0);
                    assert(self@[b].0 == oldv[b].0);
                } else {
                    assert(self@[a].0 == oldv[a].0);
                    assert(oldv[a].0 != id@);
                }
            }
        }
    }
}

/// The timing knobs loaded from configuration: how often, in seconds,
/// unsolicited state refreshes are pushed to every client.
#[derive(Debug)]
pub struct TimingConfiguration {
    pub broadcast_interval: u64,
}

/// The whole external configuration: the gateway's, the serial line's (its
/// absence means serial is disabled at startup), and the timing knobs.
#[derive(Debug)]
pub struct Configuration {
    pub http: http::Configuration,
    pub serial: Option<SerialConfiguration>,
    pub timing: Option<TimingConfiguration>,
}

/// Where the serial connection stands, as the application tracks it.
#[derive(Debug)]
pub enum SerialConnectionState {
    /// No device attached or the device is unreachable.
    Disconnected,
    /// The device is reachable; the payload is the time of the last poll.
    Idle(Option<u64>),
    /// A configuration change asked for a fresh connection, unconfirmed yet.
    PendingAttempt,
    /// Mid-transfer of a queued program; each tick drains one line.
    SendingFile(String),
}

impl SerialConnectionState {
    /// Whether the connection is available for traffic.
    pub open spec fn spec_available(&self) -> bool {
        self is Idle
    }

    /// Whether the connection is available for traffic.
    pub fn available(&self) -> (r: bool)
        ensures
            r == self.spec_available(),
    {
        matches!(self, SerialConnectionState::Idle(_))
    }
}

/// The application's view of the serial subsystem: the connection state and
/// the last applied configuration.
#[derive(Debug)]
pub struct DerivedSerialState {
    pub connection: SerialConnectionState,
    pub last_config: Option<SerialConfiguration>,
}

impl DerivedSerialState {
    /// Whether the connection is available for traffic.
    pub open spec fn spec_available(&self) -> bool {
        self.connection.spec_available()
    }

    /// Whether the connection is available for traffic.
    pub fn available(&self) -> (r: bool)
        ensures
            r == self.spec_available(),
    {
        self.connection.available()
    }
}

/// The application state: the broadcast clock, the connected clients'
/// derived views, and the serial state.
pub struct Application {
    pub last_broadcast: Option<u64>,
    pub connected_clients: ClientMap,
    pub serial: DerivedSerialState,
}

/// A client view with its availability flag replaced.
pub open spec fn set_avail(c: DerivedClientStateV, avail: bool) -> DerivedClientStateV {
    DerivedClientStateV { serial_available: avail, ..c }
}

/// Every client view with its availability flag replaced.
pub open spec fn statuses_view(
    clients: Seq<(Seq<char>, DerivedClientStateV)>,
    avail: bool,
) -> Seq<(Seq<char>, DerivedClientStateV)> {
    Seq::new(clients.len(), |i: int| (clients[i].0, set_avail(clients[i].1, avail)))
}

/// The commands from `start` on are exactly one state refresh per client, in
/// client order, each addressed to that client and carrying its rendered
/// state.
pub open spec fn is_status_batch(
    cmds: Seq<Command>,
    start: int,
    clients: Seq<(Seq<char>, DerivedClientStateV)>,
) -> bool {
    &&& cmds.len() == start + clients.len()
    &&& forall|k: int|
        0 <= k < clients.len() ==> ((#[trigger] cmds[start + k]) matches Command::Http(
            http::Command::SendState(cid, payload),
        ) && cid@ == clients[k].0 && payload@ == state_json(clients[k].1))
}

/// Milliseconds from an earlier time to a later one, zero when they are out
/// of order.
pub open spec fn elapsed_ms(now_ms: u64, then_ms: u64) -> u64 {
    if now_ms >= then_ms {
        (now_ms - then_ms) as u64
    } else {
        0u64
    }
}

/// The first line of queued program text and what remains after it: the
/// text up to the first newline, without a trailing carriage return, and
/// everything past the newline.
pub open spec fn spec_take_line(s: Seq<char>) -> (Seq<char>, Seq<char>) {
    let nl = find_in(s, '\n', 0, s.len() as int);
    let raw = s.subrange(0, nl);
    let line = if raw.len() > 0 && raw.last() == '\r' {
        raw.drop_last()
    } else {
        raw
    };
    let rem = if nl == s.len() {
        Seq::<char>::empty()
    } else {
        s.subrange(nl + 1, s.len() as int)
    };
    (line, rem)
}

/// Splits queued program text into its first line and the rest.
fn take_line(contents: &str) -> (r: (String, String))
    ensures
        (r.0@, r.1@) == spec_take_line(contents@),
{
    let v = chars_of(contents);
    let n = v.len();
    let nl = find_char(&v, '\n', 0, n);
    proof {
        lemma_find_in(v@, '\n', 0, n as int);
    }
    let line_end = if nl > 0 && v[nl - 1] == '\r' {
        nl - 1
    } else {
        nl
    };
    let mut line = String::new();
    let mut i: usize = 0;
    while i < line_end
        invariant
            i <= line_end <= nl <= n,
            n == v@.len(),
            line@ == v@.subrange(0, i as int),
        decreases line_end - i,
    {
        push_char(&mut line, v[i]);
        proof {
            assert(line@ =~= v@.subrange(0, i + 1 as int));
        }
        i += 1;
    }
    let mut rem = String::new();
    if nl < n {
        let mut j: usize = nl + 1;
        while j < n
            invariant
                nl + 1 <= j <= n,
                n == v@.len(),
                rem@ == v@.subrange(nl + 1 as int, j as int),
            decreases n - j,
        {
            push_char(&mut rem, v[j]);
            proof {
                assert(rem@ =~= v@.subrange(nl + 1 as int, j + 1 as int));
            }
            j += 1;
        }
    }
    proof {
        let ghost p = spec_take_line(contents@);
        let ghost raw = contents@.subrange(0, nl as int);
        if line_end < nl {
            assert(raw.len() > 0 && raw.last() == '\r');
            assert(line@ =~= raw.drop_last());
        } else {
            if nl > 0 {
                assert(raw.last() == v@[nl - 1]);
            }
            assert(line@ =~= raw);
        }
        if nl == n {
            assert(rem@ =~= p.1);
        } else {
            assert(rem@ =~= p.1);
        }
        assert(line@ == p.0);
    }
    (line, rem)
}

/// Every client view with one received-data entry appended to its history.
pub open spec fn serial_data_clients(
    clients: Seq<(Seq<char>, DerivedClientStateV)>,
    data: Seq<char>,
) -> Seq<(Seq<char>, DerivedClientStateV)> {
    Seq::new(
        clients.len(),
        |i: int|
            (
                clients[i].0,
                DerivedClientStateV {
                    history: push_bounded(
                        clients[i].1.history,
                        ClientHistoryEntryV::ReceivedData(data),
                    ),
                    ..clients[i].1
                },
            ),
    )
}

/// The client views after one parsed client message: the sender's tick is
/// replaced and, for a raw-serial request, the message joins its history;
/// when the message reconfigured the serial line every client's last
/// configuration is replaced; and every client's availability flag is set.
pub open spec fn client_after_data(
    key: Seq<char>,
    s0: DerivedClientStateV,
    id: Seq<char>,
    m: ClientMessageV,
    avail: bool,
    update_cfg: bool,
    cfg: Option<SerialConfigurationV>,
) -> DerivedClientStateV {
    let s1 = if key == id {
        DerivedClientStateV {
            tick: m.tick,
            history: if m.request is RawSerial {
                push_bounded(s0.history, ClientHistoryEntryV::SentCommand(m))
            } else {
                s0.history
            },
            ..s0
        }
    } else {
        s0
    };
    let s2 = if update_cfg {
        DerivedClientStateV { last_config: cfg, ..s1 }
    } else {
        s1
    };
    DerivedClientStateV { serial_available: avail, ..s2 }
}

/// See `client_after_data`, applied to every client.
pub open spec fn apply_client_data(
    clients: Seq<(Seq<char>, DerivedClientStateV)>,
    id: Seq<char>,
    m: ClientMessageV,
    avail: bool,
    update_cfg: bool,
    cfg: Option<SerialConfigurationV>,
) -> Seq<(Seq<char>, DerivedClientStateV)> {
    Seq::new(
        clients.len(),
        |k: int|
            (
                clients[k].0,
                client_after_data(clients[k].0, clients[k].1, id, m, avail, update_cfg, cfg),
            ),
    )
}

/// The application's initialisation relation. When a serial configuration
/// is present it is stored, the connection starts disconnected, and the one
/// produced command configures the serial manager; otherwise nothing changes
/// and nothing is produced.
pub open spec fn initialize_rel(
    pre: Application,
    flags: Configuration,
    next: Application,
    produced: Seq<Command>,
) -> bool {
    match flags.serial {
        Some(config) => {
            &&& next.serial.connection is Disconnected
            &&& next.serial.last_config == Some(config)
            &&& next.connected_clients == pre.connected_clients
            &&& next.last_broadcast == pre.last_broadcast
            &&& produced.len() == 1
            &&& (produced[0] matches Command::Serial(SerialCommand::Configure(c)) && c == config)
        },
        None => next == pre && produced.len() == 0,
    }
}

impl Application {
    /// The starting state: no broadcast yet, no clients, serial disconnected
    /// and unconfigured.
    pub fn new() -> (r: Application)
        ensures
            r.last_broadcast is None,
            r.connected_clients@ == Seq::<(Seq<char>, DerivedClientStateV)>::empty(),
            r.connected_clients.wf(),
            r.serial.connection is Disconnected,
            r.serial.last_config is None,
    {
        Application {
            last_broadcast: None,
            connected_clients: ClientMap::new(),
            serial: DerivedSerialState {
                connection: SerialConnectionState::Disconnected,
                last_config: None,
            },
        }
    }

    /// Appends one state-refresh command per connected client, each carrying
    /// that client's state with the availability flag set to the serial
    /// connection's current availability.
    pub fn add_statuses(&mut self, command_list: &mut Vec<Command>)
        ensures
            final(self).last_broadcast == old(self).last_broadcast,
            final(self).serial == old(self).serial,
            final(self).connected_clients@ == statuses_view(
                old(self).connected_clients@,
                old(self).serial.spec_available(),
            ),
            old(self).connected_clients.wf() ==> final(self).connected_clients.wf(),
            final(command_list)@.len() == old(command_list)@.len() + old(
                self,
            ).connected_clients@.len(),
            final(command_list)@.subrange(0, old(command_list)@.len() as int) == old(
                command_list,
            )@,
            is_status_batch(
                final(command_list)@,
                old(command_list)@.len() as int,
                final(self).connected_clients@,
            ),
    {
        let avail = self.serial.available();
        let mut rest: Vec<ClientSlot> = Vec::new();
        core::mem::swap(&mut self.connected_clients.entries, &mut rest);
        let ghost orig = old(self).connected_clients@;
        let ghost orig_entries = rest@;
        let ghost base = old(command_list)@.len() as int;
        proof {
            assert(command_list@.subrange(0, base) =~= old(command_list)@);
            assert(rest@ =~= orig_entries.skip(0));
        }
        while rest.len() > 0
            invariant
                avail == old(self).serial.spec_available(),
                self.serial == old(self).serial,
                self.last_broadcast == old(self).last_broadcast,
                orig == old(self).connected_clients@,
                orig.len() == orig_entries.len(),
                forall|k: int|
                    0 <= k < orig.len() ==> #[trigger] orig[k] == (
                        orig_entries[k].id@,
                        orig_entries[k].state@,
                    ),
                base == old(command_list)@.len() as int,
                self.connected_clients@.len() + rest@.len() == orig.len(),
                rest@ == orig_entries.skip(self.connected_clients@.len() as int),
                forall|k: int|
                    0 <= k < self.connected_clients@.len() ==> #[trigger] self.connected_clients@[k]
                        == (orig[k].0, set_avail(orig[k].1, avail)),
                command_list@.len() == base + self.connected_clients@.len(),
                command_list@.subrange(0, base) == old(command_list)@,
                forall|k: int|
                    0 <= k < self.connected_clients@.len() ==> ((#[trigger] command_list@[base + k])
                        matches Command::Http(http::Command::SendState(cid, payload)) && cid@
                        == orig[k].0 && payload@ == state_json(set_avail(orig[k].1, avail))),
            decreases rest@.len(),
        {
            let ghost done = self.connected_clients@.len() as int;
            proof {
                assert(rest@[0] == orig_entries[done]);
                assert(orig[done] == (orig_entries[done].id@, orig_entries[done].state@));
            }
            let mut slot = rest.remove(0);
            proof {
                assert(rest@ =~= orig_entries.skip(done + 1));
            }
            slot.state.serial_available = avail;
            proof {
                assert(slot.state@ == set_avail(orig[done].1, avail));
                assert(slot.id@ == orig[done].0);
            }
            let payload = render_state(&slot.state);
            command_list.push(Command::Http(http::Command::SendState(slot.id.clone(), payload)));
            let ghost pre = self.connected_clients@;
            self.connected_clients.entries.push(slot);
            proof {
                assert(command_list@.subrange(0, base) =~= old(command_list)@);
                assert(self.connected_clients@[done] == (orig[done].0, set_avail(
                    orig[done].1,
                    avail,
                )));
                assert forall|k: int|
                    0 <= k < done implies #[trigger] self.connected_clients@[k] == (
                orig[k].0,
                set_avail(orig[k].1, avail),
                ) by {
                    assert(self.connected_clients@[k] == pre[k]);
                }
            }
        }
        proof {
            assert(self.connected_clients@ =~= statuses_view(orig, avail));
            if old(self).connected_clients.wf() {
                assert forall|a: int, b: int|
                    0 <= a < b < self.connected_clients@.len() implies self.connected_clients@[a].0
                    != self.connected_clients@[b].0 by {
                    assert(orig[a].0 != orig[b].0);
                }
            }
        }
    }

    /// Consumes the starting state and the external configuration: exactly
    /// one step of `initialize_rel`, with a batch present exactly when a
    /// serial configuration is.
    pub fn initialize(self, flags: Configuration) -> (r: (Application, Option<Vec<Command>>))
        ensures
            initialize_rel(self, flags, r.0, crate::eff::opt_commands(r.1)),
            (r.1 is Some) == (flags.serial is Some),
    {
        match flags.serial {
            Some(config) => {
                let command = Command::Serial(SerialCommand::Configure(config.clone()));
                let next = Application {
                    serial: DerivedSerialState {
                        last_config: Some(config),
                        connection: SerialConnectionState::Disconnected,
                    },
                    ..self
                };
                let mut cmds: Vec<Command> = Vec::new();
                cmds.push(command);
                (next, Some(cmds))
            },
            None => (self, None),
        }
    }
}

/// The mathematical form of a stored configuration.
pub open spec fn opt_config_view(c: Option<SerialConfiguration>) -> Option<SerialConfigurationV> {
    match c {
        None => None,
        Some(config) => Some(config@),
    }
}

/// Copies a stored configuration.
fn clone_opt_config(c: &Option<SerialConfiguration>) -> (r: Option<SerialConfiguration>)
    ensures
        r == *c,
{
    match c {
        None => None,
        Some(config) => Some(config.clone()),
    }
}

/// Milliseconds from an earlier time to a later one, zero when out of order.
fn elapsed(now_ms: u64, then_ms: u64) -> (r: u64)
    ensures
        r == elapsed_ms(now_ms, then_ms),
{
    if now_ms >= then_ms {
        now_ms - then_ms
    } else {
        0
    }
}

/// Whether one step on this message returns a command batch at all (even an
/// empty one) rather than nothing.
pub open spec fn emits_batch(pre: Application, message: Message) -> bool {
    match message {
        Message::ConnectedSerial => pre.connected_clients@.len() > 0,
        Message::DisconnectedSerial => pre.connected_clients@.len() > 0,
        Message::Serial(_) => pre.connected_clients@.len() > 0,
        Message::Broadcast { now_ms } => match pre.last_broadcast {
            None => false,
            Some(last) => elapsed_ms(now_ms, last) >= 2000 && pre.connected_clients@.len() > 0,
        },
        Message::Tick { .. } => true,
        Message::Http(m) => match m {
            http::Message::FileUpload(_) => false,
            http::Message::ClientConnected(_) => false,
            http::Message::ClientDisconnected(_) => false,
            http::Message::ClientData(id, _) => pre.connected_clients.contains_id(id@),
        },
    }
}

/// The application's transition relation: given the state before, one
/// message, the state after and the produced command batch, whether the step
/// is the one the application takes. Every message kind's whole effect —
/// the new state and each produced command — is pinned down case by case.
pub open spec fn transition_rel(
    pre: Application,
    message: Message,
    next: Application,
    produced: Seq<Command>,
) -> bool {
    match message {
        Message::ConnectedSerial => {
            &&& (next.serial.connection matches SerialConnectionState::Idle(p) && p is None)
            &&& next.serial.last_config == pre.serial.last_config
            &&& next.last_broadcast == pre.last_broadcast
            &&& if pre.connected_clients@.len() == 0 {
                next.connected_clients@ == pre.connected_clients@ && produced.len() == 0
            } else {
                &&& next.connected_clients@ == statuses_view(pre.connected_clients@, true)
                &&& (is_status_batch(
                    produced,
                    0,
                    next.connected_clients@,
                ))
            }
        },
        Message::DisconnectedSerial => {
            &&& next.serial.connection is Disconnected
            &&& next.serial.last_config == pre.serial.last_config
            &&& next.last_broadcast == pre.last_broadcast
            &&& if pre.connected_clients@.len() == 0 {
                next.connected_clients@ == pre.connected_clients@ && produced.len() == 0
            } else {
                &&& next.connected_clients@ == statuses_view(pre.connected_clients@, false)
                &&& (is_status_batch(
                    produced,
                    0,
                    next.connected_clients@,
                ))
            }
        },
        Message::Serial(data) => {
            &&& next.serial == pre.serial
            &&& next.last_broadcast == pre.last_broadcast
            &&& if pre.connected_clients@.len() == 0 {
                next.connected_clients@ == pre.connected_clients@ && produced.len() == 0
            } else {
                &&& next.connected_clients@ == serial_data_clients(
                    pre.connected_clients@,
                    data@,
                )
                &&& (is_status_batch(
                    produced,
                    0,
                    next.connected_clients@,
                ))
            }
        },
        Message::Broadcast { now_ms } => {
            &&& next.serial == pre.serial
            &&& match pre.last_broadcast {
                None => {
                    &&& next.last_broadcast == Some(now_ms)
                    &&& next.connected_clients@ == pre.connected_clients@
                    &&& produced.len() == 0
                },
                Some(last) => if elapsed_ms(now_ms, last) < 2000 {
                    &&& next.last_broadcast == pre.last_broadcast
                    &&& next.connected_clients@ == pre.connected_clients@
                    &&& produced.len() == 0
                } else {
                    &&& next.last_broadcast == Some(now_ms)
                    &&& if pre.connected_clients@.len() == 0 {
                        next.connected_clients@ == pre.connected_clients@ && produced.len() == 0
                    } else {
                        &&& next.connected_clients@ == statuses_view(
                            pre.connected_clients@,
                            pre.serial.spec_available(),
                        )
                        &&& (is_status_batch(
                            produced,
                            0,
                            next.connected_clients@,
                        ))
                    }
                },
            }
        },
        Message::Tick { now_ms } => {
            &&& next.connected_clients@ == pre.connected_clients@
            &&& next.last_broadcast == pre.last_broadcast
            &&& next.serial.last_config == pre.serial.last_config
            &&& (match pre.serial.connection {
                SerialConnectionState::SendingFile(contents) => if contents@.len() == 0 {
                    &&& (next.serial.connection matches SerialConnectionState::Idle(p) && p
                        == Some(now_ms))
                    &&& produced.len() == 1
                    &&& produced[0] == Command::Serial(SerialCommand::Status)
                } else {
                    &&& (next.serial.connection matches SerialConnectionState::SendingFile(
                        rest,
                    ) && rest@ == spec_take_line(contents@).1)
                    &&& produced.len() == 1
                    &&& (produced[0] matches Command::Serial(SerialCommand::Raw(line)) && line@
                        == spec_take_line(contents@).0)
                },
                SerialConnectionState::Idle(last_ping) => {
                    let stale = match last_ping {
                        None => true,
                        Some(ping) => elapsed_ms(now_ms, ping) >= 4000,
                    };
                    if stale {
                        &&& (next.serial.connection matches SerialConnectionState::Idle(p)
                            && p == Some(now_ms))
                        &&& produced.len() == 1
                        &&& produced[0] == Command::Serial(SerialCommand::Status)
                    } else {
                        &&& next.serial.connection == pre.serial.connection
                        &&& produced.len() == 0
                    }
                },
                SerialConnectionState::Disconnected => next.serial.connection
                    == pre.serial.connection && produced.len() == 0,
                SerialConnectionState::PendingAttempt => next.serial.connection
                    == pre.serial.connection && produced.len() == 0,
            })
        },
        Message::Http(m) => match m {
            http::Message::FileUpload(contents) => if pre.serial.spec_available() {
                &&& (next.serial.connection matches SerialConnectionState::SendingFile(c)
                    && c == contents)
                &&& next.serial.last_config == pre.serial.last_config
                &&& next.last_broadcast == pre.last_broadcast
                &&& next.connected_clients@ == pre.connected_clients@
                &&& produced.len() == 0
            } else {
                next == pre && produced.len() == 0
            },
            http::Message::ClientConnected(id) => {
                &&& next.serial == pre.serial
                &&& next.last_broadcast == pre.last_broadcast
                &&& next.connected_clients.contains_id(id@)
                &&& (!pre.connected_clients.contains_id(id@)
                    ==> next.connected_clients@ == pre.connected_clients@.push(
                    (id@, fresh_client_view(pre)),
                ))
                &&& (pre.connected_clients.contains_id(id@) ==> exists|i: int|
                    0 <= i < pre.connected_clients@.len() && pre.connected_clients@[i].0
                        == id@ && next.connected_clients@ == pre.connected_clients@.update(
                        i,
                        (id@, fresh_client_view(pre)),
                    ))
                &&& produced.len() == 0
            },
            http::Message::ClientDisconnected(id) => {
                &&& next.serial == pre.serial
                &&& next.last_broadcast == pre.last_broadcast
                &&& !next.connected_clients.contains_id(id@)
                &&& (pre.connected_clients.contains_id(id@) ==> exists|i: int|
                    0 <= i < pre.connected_clients@.len() && pre.connected_clients@[i].0
                        == id@ && next.connected_clients@ == pre.connected_clients@.remove(
                        i,
                    ))
                &&& (!pre.connected_clients.contains_id(id@) ==> next.connected_clients@
                    == pre.connected_clients@)
                &&& produced.len() == 0
            },
            http::Message::ClientData(id, data) => if !pre.connected_clients.contains_id(
                id@,
            ) {
                next == pre && produced.len() == 0
            } else {
                match crate::protocol::client_message_of(data@) {
                    None => {
                        &&& next == pre
                        &&& (produced.len() == 1 && (produced[0]
                            matches Command::Http(http::Command::SendState(cid, payload))
                            && cid@ == id@ && payload@ == response_json(0, false)))
                    },
                    Some(m) => {
                        let update_cfg = m.request is Configuration;
                        let avail2 = if update_cfg {
                            false
                        } else {
                            pre.serial.spec_available()
                        };
                        let cfg = if update_cfg {
                            Some(m.request->Configuration_0)
                        } else {
                            opt_config_view(pre.serial.last_config)
                        };
                        &&& next.last_broadcast == pre.last_broadcast
                        &&& (if update_cfg {
                            next.serial.connection is PendingAttempt && opt_config_view(
                                next.serial.last_config,
                            ) == Some(m.request->Configuration_0)
                        } else {
                            next.serial == pre.serial
                        })
                        &&& next.connected_clients@ == apply_client_data(
                            pre.connected_clients@,
                            id@,
                            m,
                            avail2,
                            update_cfg,
                            cfg,
                        )
                        &&& ({
                            &&& produced.len() == 2 + pre.connected_clients@.len()
                            &&& match m.request {
                                ClientMessageRequestV::RawSerial(value) => produced[0] matches
                                    Command::Serial(SerialCommand::Raw(text)) && text@
                                    == value,
                                ClientMessageRequestV::Configuration(cv) => produced[0]
                                    matches Command::Serial(SerialCommand::Configure(c))
                                    && c@ == cv,
                                ClientMessageRequestV::CloseSerial => produced[0] matches
                                    Command::Serial(SerialCommand::Control(e)) && !e,
                                ClientMessageRequestV::RetrySerial => produced[0] matches
                                    Command::Serial(SerialCommand::Control(e)) && e,
                            }
                            &&& (produced[1] matches Command::Http(
                                http::Command::SendState(cid, resp),
                            ) && cid@ == id@ && resp@ == response_json(m.tick, true))
                            &&& is_status_batch(produced, 2, next.connected_clients@)
                        })
                    },
                }
            },
        },
    }
}

impl Application {
    /// Consumes the current state and one message, returning the next state
    /// and the commands it produced: exactly one step of `transition_rel`,
    /// with a batch present exactly when `emits_batch` says so.
    #[verifier::rlimit(60)]
    pub fn transition(self, message: Message) -> (r: (Application, Option<Vec<Command>>))
        requires
            self.connected_clients.wf(),
        ensures
            r.0.connected_clients.wf(),
            transition_rel(self, message, r.0, crate::eff::opt_commands(r.1)),
            (r.1 is Some) == emits_batch(self, message),
    {
        match message {
            Message::ConnectedSerial => {
                let mut next = self;
                next.serial.connection = SerialConnectionState::Idle(None);
                if next.connected_clients.len() == 0 {
                    (next, None)
                } else {
                    let mut cmds: Vec<Command> = Vec::new();
                    next.add_statuses(&mut cmds);
                    (next, Some(cmds))
                }
            },
            Message::DisconnectedSerial => {
                let mut next = self;
                next.serial.connection = SerialConnectionState::Disconnected;
                if next.connected_clients.len() == 0 {
                    (next, None)
                } else {
                    let mut cmds: Vec<Command> = Vec::new();
                    next.add_statuses(&mut cmds);
                    (next, Some(cmds))
                }
            },
            Message::Serial(data) => {
                let mut next = self;
                if next.connected_clients.len() == 0 {
                    return (next, None);
                }
                let mut cmds: Vec<Command> = Vec::new();
                let mut rest: Vec<ClientSlot> = Vec::new();
                core::mem::swap(&mut next.connected_clients.entries, &mut rest);
                let ghost orig = self.connected_clients@;
                let ghost orig_entries = rest@;
                proof {
                    assert(rest@ =~= orig_entries.skip(0));
                }
                while rest.len() > 0
                    invariant
                        orig == self.connected_clients@,
                        orig.len() == orig_entries.len(),
                        forall|k: int|
                            0 <= k < orig.len() ==> #[trigger] orig[k] == (
                                orig_entries[k].id@,
                                orig_entries[k].state@,
                            ),
                        next.serial == self.serial,
                        next.last_broadcast == self.last_broadcast,
                        next.connected_clients@.len() + rest@.len() == orig.len(),
                        rest@ == orig_entries.skip(next.connected_clients@.len() as int),
                        forall|k: int|
                            0 <= k < next.connected_clients@.len()
                                ==> #[trigger] next.connected_clients@[k] == serial_data_clients(
                                orig,
                                data@,
                            )[k],
                        cmds@.len() == next.connected_clients@.len(),
                        forall|k: int|
                            0 <= k < next.connected_clients@.len() ==> ((#[trigger] cmds@[k])
                                matches Command::Http(http::Command::SendState(cid, payload))
                                && cid@ == orig[k].0 && payload@ == state_json(
                                serial_data_clients(orig, data@)[k].1,
                            )),
                    decreases rest@.len(),
                {
                    let ghost done = next.connected_clients@.len() as int;
                    proof {
                        assert(rest@[0] == orig_entries[done]);
                        assert(orig[done] == (orig_entries[done].id@, orig_entries[done].state@));
                    }
                    let mut slot = rest.remove(0);
                    proof {
                        assert(rest@ =~= orig_entries.skip(done + 1));
                    }
                    slot.state.push_history(ClientHistoryEntry::ReceivedData(data.clone()));
                    proof {
                        assert(slot.state@ == serial_data_clients(orig, data@)[done].1);
                    }
                    let payload = render_state(&slot.state);
                    cmds.push(Command::Http(http::Command::SendState(slot.id.clone(), payload)));
                    let ghost pre = next.connected_clients@;
                    next.connected_clients.entries.push(slot);
                    proof {
                        assert(next.connected_clients@[done] == serial_data_clients(
                            orig,
                            data@,
                        )[done]);
                        assert forall|k: int|
                            0 <= k < done implies #[trigger] next.connected_clients@[k]
                            == serial_data_clients(orig, data@)[k] by {
                            assert(next.connected_clients@[k] == pre[k]);
                        }
                    }
                }
                proof {
                    assert(next.connected_clients@ =~= serial_data_clients(orig, data@));
                    assert forall|a: int, b: int|
                        0 <= a < b < next.connected_clients@.len() implies next.connected_clients@[
                        a].0 != next.connected_clients@[b].0 by {
                        assert(orig[a].0 != orig[b].0);
                    }
                }
                (next, Some(cmds))
            },
            Message::Broadcast { now_ms } => {
                let mut next = self;
                match next.last_broadcast {
                    None => {
                        next.last_broadcast = Some(now_ms);
                        (next, None)
                    },
                    Some(last) => {
                        if elapsed(now_ms, last) < 2000 {
                            (next, None)
                        } else {
                            next.last_broadcast = Some(now_ms);
                            if next.connected_clients.len() == 0 {
                                (next, None)
                            } else {
                                let mut cmds: Vec<Command> = Vec::new();
                                next.add_statuses(&mut cmds);
                                (next, Some(cmds))
                            }
                        }
                    },
                }
            },
            Message::Tick { now_ms } => {
                let Application { last_broadcast, connected_clients, serial } = self;
                let DerivedSerialState { connection, last_config } = serial;
                let mut cmds: Vec<Command> = Vec::new();
                let connection = match connection {
                    SerialConnectionState::SendingFile(contents) => {
                        if contents.as_str().is_empty() {
                            SerialConnectionState::Idle(None)
                        } else {
                            let (line, rem) = take_line(contents.as_str());
                            cmds.push(Command::Serial(SerialCommand::Raw(line)));
                            SerialConnectionState::SendingFile(rem)
                        }
                    },
                    other => other,
                };
                let connection = match connection {
                    SerialConnectionState::Idle(last_ping) => {
                        let stale = match last_ping {
                            None => true,
                            Some(ping) => elapsed(now_ms, ping) >= 4000,
                        };
                        if stale {
                            cmds.push(Command::Serial(SerialCommand::Status));
                            SerialConnectionState::Idle(Some(now_ms))
                        } else {
                            SerialConnectionState::Idle(last_ping)
                        }
                    },
                    other => other,
                };
                (
                    Application {
                        last_broadcast,
                        connected_clients,
                        serial: DerivedSerialState { connection, last_config },
                    },
                    Some(cmds),
                )
            },
            Message::Http(http::Message::FileUpload(contents)) => {
                let mut next = self;
                if !next.serial.available() {
                    return (next, None);
                }
                next.serial.connection = SerialConnectionState::SendingFile(contents);
                (next, None)
            },
            Message::Http(http::Message::ClientConnected(id)) => {
                let mut next = self;
                let avail = next.serial.available();
                let config = clone_opt_config(&next.serial.last_config);
                let fresh = DerivedClientState::fresh(avail, config);
                proof {
                    assert(fresh@ == fresh_client_view(self));
                }
                next.connected_clients.insert(id, fresh);
                (next, None)
            },
            Message::Http(http::Message::ClientDisconnected(id)) => {
                let mut next = self;
                next.connected_clients.remove_id(id.as_str());
                (next, None)
            },
            Message::Http(http::Message::ClientData(id, data)) => {
                let mut next = self;
                if !next.connected_clients.contains(id.as_str()) {
                    return (next, None);
                }
                let parsed = match crate::protocol::parse_client_message(data.as_str()) {
                    None => {
                        let resp = render_response(0, false);
                        let mut cmds: Vec<Command> = Vec::new();
                        cmds.push(Command::Http(http::Command::SendState(id, resp)));
                        return (next, Some(cmds));
                    },
                    Some(p) => p,
                };
                let ghost m = parsed@;
                let mut cmds: Vec<Command> = Vec::new();
                let update_cfg = matches!(&parsed.request, ClientMessageRequest::Configuration(_));
                match &parsed.request {
                    ClientMessageRequest::Configuration(config) => {
                        cmds.push(Command::Serial(SerialCommand::Configure(config.clone())));
                        next.serial.last_config = Some(config.clone());
                        next.serial.connection = SerialConnectionState::PendingAttempt;
                    },
                    ClientMessageRequest::RetrySerial => {
                        cmds.push(Command::Serial(SerialCommand::Control(true)));
                    },
                    ClientMessageRequest::CloseSerial => {
                        cmds.push(Command::Serial(SerialCommand::Control(false)));
                    },
                    ClientMessageRequest::RawSerial(value) => {
                        cmds.push(Command::Serial(SerialCommand::Raw(value.clone())));
                    },
                }
                let resp = render_response(parsed.tick, true);
                cmds.push(Command::Http(http::Command::SendState(id.clone(), resp)));
                let ghost c0 = cmds@[0];
                let ghost c1 = cmds@[1];
                let avail2 = next.serial.available();
                let new_cfg = clone_opt_config(&next.serial.last_config);
                let ghost cfg = if update_cfg {
                    Some(m.request->Configuration_0)
                } else {
                    opt_config_view(self.serial.last_config)
                };
                proof {
                    assert(opt_config_view(new_cfg) == cfg);
                }
                let mut rest: Vec<ClientSlot> = Vec::new();
                core::mem::swap(&mut next.connected_clients.entries, &mut rest);
                let ghost orig = self.connected_clients@;
                let ghost orig_entries = rest@;
                let ghost target = apply_client_data(orig, id@, m, avail2, update_cfg, cfg);
                let ghost serial_after = next.serial;
                proof {
                    assert(rest@ =~= orig_entries.skip(0));
                }
                while rest.len() > 0
                    invariant
                        orig == self.connected_clients@,
                        orig.len() == orig_entries.len(),
                        forall|k: int|
                            0 <= k < orig.len() ==> #[trigger] orig[k] == (
                                orig_entries[k].id@,
                                orig_entries[k].state@,
                            ),
                        target == apply_client_data(orig, id@, m, avail2, update_cfg, cfg),
                        next.serial == serial_after,
                        avail2 == serial_after.spec_available(),
                        (if update_cfg {
                            serial_after.connection is PendingAttempt && opt_config_view(
                                serial_after.last_config,
                            ) == Some(m.request->Configuration_0)
                        } else {
                            serial_after == self.serial
                        }),
                        next.last_broadcast == self.last_broadcast,
                        opt_config_view(new_cfg) == cfg,
                        m == parsed@,
                        next.connected_clients@.len() + rest@.len() == orig.len(),
                        rest@ == orig_entries.skip(next.connected_clients@.len() as int),
                        forall|k: int|
                            0 <= k < next.connected_clients@.len()
                                ==> #[trigger] next.connected_clients@[k] == target[k],
                        cmds@.len() == 2 + next.connected_clients@.len(),
                        cmds@[0] == c0,
                        cmds@[1] == c1,
                        forall|k: int|
                            0 <= k < next.connected_clients@.len() ==> ((#[trigger] cmds@[2 + k])
                                matches Command::Http(http::Command::SendState(cid, payload))
                                && cid@ == orig[k].0 && payload@ == state_json(target[k].1)),
                    decreases rest@.len(),
                {
                    let ghost done = next.connected_clients@.len() as int;
                    proof {
                        assert(rest@[0] == orig_entries[done]);
                        assert(orig[done] == (orig_entries[done].id@, orig_entries[done].state@));
                    }
                    let mut slot = rest.remove(0);
                    proof {
                        assert(rest@ =~= orig_entries.skip(done + 1));
                    }
                    if str_eq(slot.id.as_str(), id.as_str()) {
                        slot.state.tick = parsed.tick;
                        if matches!(&parsed.request, ClientMessageRequest::RawSerial(_)) {
                            slot.state.push_history(
                                ClientHistoryEntry::SentCommand(parsed.clone()),
                            );
                        }
                    }
                    if update_cfg {
                        slot.state.last_config = clone_opt_config(&new_cfg);
                    }
                    slot.state.serial_available = avail2;
                    proof {
                        assert(target[done].1 == client_after_data(
                            orig[done].0,
                            orig[done].1,
                            id@,
                            m,
                            avail2,
                            update_cfg,
                            cfg,
                        ));
                        assert(slot.state@ == target[done].1);
                    }
                    let payload = render_state(&slot.state);
                    cmds.push(Command::Http(http::Command::SendState(slot.id.clone(), payload)));
                    let ghost pre = next.connected_clients@;
                    next.connected_clients.entries.push(slot);
                    proof {
                        assert(next.connected_clients@[done] == target[done]);
                        assert forall|k: int|
                            0 <= k < done implies #[trigger] next.connected_clients@[k]
                            == target[k] by {
                            assert(next.connected_clients@[k] == pre[k]);
                        }
                    }
                }
                proof {
                    assert(next.connected_clients@ =~= target);
                    assert forall|a: int, b: int|
                        0 <= a < b < next.connected_clients@.len() implies next.connected_clients@[
                        a].0 != next.connected_clients@[b].0 by {
                        assert(orig[a].0 != orig[b].0);
                    }
                }
                (next, Some(cmds))
            },
        }
    }
}

/// The view a just-connected client starts from: a zero tick, no history,
/// the serial connection's current availability and last configuration.
pub open spec fn fresh_client_view(app: Application) -> DerivedClientStateV {
    DerivedClientStateV {
        tick: 0u32,
        history: Seq::<ClientHistoryEntryV>::empty(),
        serial_available: app.serial.spec_available(),
        last_config: opt_config_view(app.serial.last_config),
    }
}

impl crate::eff::Application for Application {
    type Message = Message;

    type Command = Command;

    type Flags = Configuration;

    open spec fn inv(&self) -> bool {
        self.connected_clients.wf()
    }

    open spec fn boots(
        self,
        flags: Configuration,
        next: Application,
        produced: Seq<Command>,
    ) -> bool {
        initialize_rel(self, flags, next, produced)
    }

    open spec fn steps(
        self,
        message: Message,
        next: Application,
        produced: Seq<Command>,
    ) -> bool {
        transition_rel(self, message, next, produced)
    }

    fn init(self, flags: Configuration) -> (r: (Application, Option<Vec<Command>>)) {
        let ghost pre = self;
        let ghost flags_in = flags;
        let r = self.initialize(flags);
        proof {
            match flags_in.serial {
                Some(_) => {
                    assert(r.0.connected_clients == pre.connected_clients);
                },
                None => {
                    assert(r.0 == pre);
                },
            }
        }
        r
    }

    fn update(self, message: Message) -> (r: (Application, Option<Vec<Command>>)) {
        self.transition(message)
    }
}

} // verus!
