//! The client side of the relay: where to reach it, what to send, and how
//! a reader is drained into the chunks of a push.

use vstd::prelude::*;
use vstd::string::StringExecFns;
use crate::ident::decimal;
use crate::ident::decimal_text;
use crate::ledger_dump::law_read_takes_from_the_rest;
use crate::ledger_dump::LedgerDump;

verus! {

/// Where the relay is.
pub struct LandStriderConfig {
    server: String,
    port: u32,
}

impl LandStriderConfig {
    /// The relay's host name.
    pub closed spec fn server(&self) -> Seq<char> {
        self.server@
    }

    /// The relay's port.
    pub closed spec fn port(&self) -> u32 {
        self.port
    }

    pub fn new(server: &str, port: u32) -> (config: Self)
        ensures
            config.server() == server@,
            config.port() == port,
    {
        LandStriderConfig { server: server.to_owned(), port }
    }

    /// The address that every endpoint's path is appended to.
    pub fn get_base_url(&self) -> (url: String)
        ensures
            url@ == base_url(self.server(), self.port()),
    {
        let mut url: String = "http://".to_owned();
        url.append(self.server.as_str());
        url.append(":");
        url.append(decimal_text(self.port).as_str());
        url
    }
}

/// The base address of the relay at `server`:`port`.
pub open spec fn base_url(server: Seq<char>, port: u32) -> Seq<char> {
    "http://"@ + server + ":"@ + decimal(port as nat)
}

/// The address of a pull of job `pin` with password `pw`.
pub open spec fn pull_address(base: Seq<char>, pin: Seq<char>, pw: Seq<char>) -> Seq<char> {
    base + "/pull"@ + "?pin="@ + pin + "&pw="@ + pw
}

/// The address of a pull of job `pin` with password `pw`.
pub fn pull_url(config: &LandStriderConfig, pin: &str, pw: &str) -> (url: String)
    ensures
        url@ == pull_address(base_url(config.server(), config.port()), pin@, pw@),
{
    let mut url = config.get_base_url();
    url.append("/pull");
    url.append("?pin=");
    url.append(pin);
    url.append("&pw=");
    url.append(pw);
    url
}

/// The address of the streamed push.
pub fn push_s_url(config: &LandStriderConfig) -> (url: String)
    ensures
        url@ == base_url(config.server(), config.port()) + "/push_s"@,
{
    let mut url = config.get_base_url();
    url.append("/push_s");
    url
}

/// The address of the form push.
pub fn push_url(config: &LandStriderConfig) -> (url: String)
    ensures
        url@ == base_url(config.server(), config.port()) + "/push"@,
{
    let mut url = config.get_base_url();
    url.append("/push");
    url
}

/// The address of the PIN reservation.
pub fn reserve_pin_url(config: &LandStriderConfig) -> (url: String)
    ensures
        url@ == base_url(config.server(), config.port()) + "/reserve_pin"@,
{
    let mut url = config.get_base_url();
    url.append("/reserve_pin");
    url
}

/// The value of the header that authorizes a push with `token`.
pub fn authorization_header(token: &str) -> (value: String)
    ensures
        value@ == "Bearer "@ + token@,
{
    let mut value: String = "Bearer ".to_owned();
    value.append(token);
    value
}

/// The client of the relay.
pub struct LandStrider {
    config: LandStriderConfig,
}

impl LandStrider {
    /// The configuration the client was made with.
    pub closed spec fn config(&self) -> LandStriderConfig {
        self.config
    }

    pub fn new(config: LandStriderConfig) -> (client: Self)
        ensures
            client.config() == config,
    {
        LandStrider { config }
    }

    /// Where the client's relay is.
    pub fn settings(&self) -> (config: &LandStriderConfig)
        ensures
            *config == self.config(),
    {
        &self.config
    }
}

/// How a push failed.
#[derive(Debug)]
pub enum PushErr {
    Network(String),
    Server(String),
    Parse(String),
}

/// The text of a push failure.
pub open spec fn push_err_text(e: PushErr) -> Seq<char> {
    match e {
        PushErr::Network(why) => "Network request failed: "@ + why@,
        PushErr::Server(why) => "Server responded with a failure: "@ + why@,
        PushErr::Parse(why) => "Failed to parse push response: "@ + why@,
    }
}

impl PushErr {
    /// The text a user sees.
    pub fn to_string(&self) -> (text: String)
        ensures
            text@ == push_err_text(*self),
    {
        match self {
            PushErr::Network(why) => {
                let mut text: String = "Network request failed: ".to_owned();
                text.append(why.as_str());
                text
            },
            PushErr::Server(why) => {
                let mut text: String = "Server responded with a failure: ".to_owned();
                text.append(why.as_str());
                text
            },
            PushErr::Parse(why) => {
                let mut text: String = "Failed to parse push response: ".to_owned();
                text.append(why.as_str());
                text
            },
        }
    }
}

/// How a pull failed.
#[derive(Debug)]
pub enum PullErr {
    Network(String),
    Server(String),
    StreamItemProcess(String),
    StreamItemParse(String),
}

/// The text of a pull failure.
pub open spec fn pull_err_text(e: PullErr) -> Seq<char> {
    match e {
        PullErr::Network(why) => "Network request failed: "@ + why@,
        PullErr::Server(why) => "Server responded with a failure: "@ + why@,
        PullErr::StreamItemProcess(why) => "Failed to process stream item: "@ + why@,
        PullErr::StreamItemParse(why) => "Failed to parse stream data: "@ + why@,
    }
}

impl PullErr {
    /// The text a user sees.
    pub fn to_string(&self) -> (text: String)
        ensures
            text@ == pull_err_text(*self),
    {
        match self {
            PullErr::Network(why) => {
                let mut text: String = "Network request failed: ".to_owned();
                text.append(why.as_str());
                text
            },
            PullErr::Server(why) => {
                let mut text: String = "Server responded with a failure: ".to_owned();
                text.append(why.as_str());
                text
            },
            PullErr::StreamItemProcess(why) => {
                let mut text: String = "Failed to process stream item: ".to_owned();
                text.append(why.as_str());
                text
            },
            PullErr::StreamItemParse(why) => {
                let mut text: String = "Failed to parse stream data: ".to_owned();
                text.append(why.as_str());
                text
            },
        }
    }
}

/// What the relay answers to a push.
#[derive(Debug)]
pub struct PushResponse {
    pub success: bool,
    pub pin: String,
}

/// What the relay answers to a PIN reservation.
#[derive(Debug)]
pub struct ReservePinResponse {
    pub success: bool,
    pub token: String,
    pub pin: String,
}

impl PushResponse {
    /// The answer to a push that went through under the reservation
    /// `reserved`.
    pub fn completed(reserved: ReservePinResponse) -> (response: Self)
        ensures
            response.success,
            response.pin == reserved.pin,
    {
        PushResponse { success: true, pin: reserved.pin }
    }
}

/// How many empty reads in a row a push puts up with before it takes the
/// reader to be finished.
pub const READER_RETRY_MAX: usize = 3;

/// How many bytes a push reads at a time.
pub const CHUNK_SIZE: usize = 1024;

/// How many chunks wait between the reader and the request at most.
pub const CHANNEL_CAPACITY: usize = 32;

/// What to do with what a read returned.
#[derive(Debug, Clone, Copy, PartialEq, Eq, Structural)]
pub enum ReadStep {
    /// Send the bytes read.
    Send,
    /// Nothing was read; read again.
    Retry,
    /// Nothing was read once too often; the reader is finished.
    Finished,
}

/// The part of a push that decides when its reader is finished.
pub struct PushReader {
    pub retry: usize,
}

/// What a read of `count` bytes after `retry` empty reads leads to: the
/// step to take, and the empty reads counted after it.
pub open spec fn after_read(retry: usize, count: usize) -> (ReadStep, usize) {
    if count > 0 {
        (ReadStep::Send, 0)
    } else if retry >= READER_RETRY_MAX {
        (ReadStep::Finished, retry)
    } else {
        (ReadStep::Retry, (retry + 1) as usize)
    }
}

impl PushReader {
    pub fn new() -> (reader: Self)
        ensures
            reader.retry == 0,
    {
        PushReader { retry: 0 }
    }

    /// Takes note of a read that returned `count` bytes.
    pub fn on_read(&mut self, count: usize) -> (step: ReadStep)
        ensures
            (step, final(self).retry) == after_read(old(self).retry, count),
    {
        if count == 0 && self.retry >= READER_RETRY_MAX {
            return ReadStep::Finished;
        }
        if count == 0 && self.retry < READER_RETRY_MAX {
            self.retry = self.retry + 1;
            return ReadStep::Retry;
        }
        self.retry = 0;
        ReadStep::Send
    }
}

/// The bytes of a list of chunks, one after the other.
pub open spec fn flat(chunks: Seq<Vec<u8>>) -> Seq<u8>
    decreases chunks.len(),
{
    if chunks.len() == 0 {
        Seq::empty()
    } else {
        flat(chunks.drop_last()) + chunks.last()@
    }
}

/// Drains a dump into the chunks that a push sends. The chunks hold every
/// byte of the dump, in order; none is empty and none is longer than
/// `CHUNK_SIZE`.
pub fn read_chunks(dump: &mut LedgerDump) -> (chunks: Vec<Vec<u8>>)
    ensures
        flat(chunks@) == old(dump).rest(),
        final(dump).rest().len() == 0,
        forall|i: int| 0 <= i < chunks@.len() ==> 0 < (#[trigger] chunks@[i])@.len() <= CHUNK_SIZE,
{
    let mut reader = PushReader::new();
    let mut chunks: Vec<Vec<u8>> = Vec::new();
    assert(flat(chunks@) + dump.rest() =~= dump.rest());
    loop
        invariant
            flat(chunks@) + dump.rest() == old(dump).rest(),
            reader.retry <= READER_RETRY_MAX,
            reader.retry >= 1 ==> dump.boundary() || dump.rest().len() == 0,
            reader.retry >= 2 ==> dump.rest().len() == 0,
            forall|i: int|
                0 <= i < chunks@.len() ==> 0 < (#[trigger] chunks@[i])@.len() <= CHUNK_SIZE,
        ensures
            flat(chunks@) == old(dump).rest(),
            dump.rest().len() == 0,
            forall|i: int|
                0 <= i < chunks@.len() ==> 0 < (#[trigger] chunks@[i])@.len() <= CHUNK_SIZE,
        decreases dump.rest().len(), READER_RETRY_MAX - reader.retry,
    {
        let ghost before = dump.rest();
        let ghost sent = flat(chunks@);
        let ghost reader_before = *dump;
        let chunk = dump.read(CHUNK_SIZE);
        proof {
            law_read_takes_from_the_rest(reader_before, CHUNK_SIZE, chunk@, *dump);
        }
        match reader.on_read(chunk.len()) {
            ReadStep::Finished => {
                assert(before =~= dump.rest());
                assert(sent + dump.rest() =~= sent);
                break ;
            },
            ReadStep::Retry => {
                assert(chunk@ + dump.rest() =~= dump.rest());
            },
            ReadStep::Send => {
                let ghost old_chunks = chunks@;
                chunks.push(chunk);
                proof {
                    assert(chunks@.drop_last() =~= old_chunks);
                    assert(flat(chunks@) == sent + chunk@);
                    assert((sent + chunk@) + dump.rest() =~= sent + (chunk@ + dump.rest()));
                }
            },
        }
    }
    chunks
}

} // verus!
