//! Requests and responses of the Rust playground, and the addresses its
//! services live at.
use vstd::prelude::*;

verus! {

/// How the playground compiles.
#[derive(Clone, Copy, Debug, PartialEq, Eq, Structural)]
pub enum Mode {
    Debug,
    Release,
}

/// What kind of crate the playground builds.
#[derive(Clone, Copy, Debug, PartialEq, Eq, Structural)]
pub enum CrateType {
    Bin,
    Lib,
}

/// Which toolchain the playground uses.
#[derive(Clone, Copy, Debug, PartialEq, Eq, Structural)]
pub enum Channel {
    Stable,
    Beta,
    Nightly,
}

pub open spec fn mode_name(m: Mode) -> Seq<char> {
    match m {
        Mode::Debug => "debug"@,
        Mode::Release => "release"@,
    }
}

pub open spec fn channel_name(c: Channel) -> Seq<char> {
    match c {
        Channel::Stable => "stable"@,
        Channel::Beta => "beta"@,
        Channel::Nightly => "nightly"@,
    }
}

impl Mode {
    pub fn as_str(&self) -> (r: &'static str)
        ensures
            r@ == mode_name(*self),
    {
        match *self {
            Mode::Debug => "debug",
            Mode::Release => "release",
        }
    }
}

impl Channel {
    pub fn as_str(&self) -> (r: &'static str)
        ensures
            r@ == channel_name(*self),
    {
        match *self {
            Channel::Stable => "stable",
            Channel::Beta => "beta",
            Channel::Nightly => "nightly",
        }
    }
}

/// What an execution request holds.
pub struct RequestView {
    pub channel: Channel,
    pub mode: Mode,
    pub edition: Option<Seq<char>>,
    pub crate_type: CrateType,
    pub tests: bool,
    pub backtrace: bool,
    pub code: Seq<char>,
}

pub open spec fn edition_view(e: Option<String>) -> Option<Seq<char>> {
    match e {
        Some(s) => Some(s@),
        None => None,
    }
}

/// A request to compile and run code on the playground.
pub struct Request {
    channel: Channel,
    mode: Mode,
    edition: Option<String>,
    crate_type: CrateType,
    tests: bool,
    backtrace: bool,
    code: String,
}

impl View for Request {
    type V = RequestView;

    closed spec fn view(&self) -> RequestView {
        RequestView {
            channel: self.channel,
            mode: self.mode,
            edition: edition_view(self.edition),
            crate_type: self.crate_type,
            tests: self.tests,
            backtrace: self.backtrace,
            code: self.code@,
        }
    }
}

impl Request {
    /// A request for `code` on stable, in debug mode, edition 2018, as a
    /// binary, without tests or backtraces.
    pub fn new(code: String) -> (r: Request)
        ensures
            r@ == (RequestView {
                channel: Channel::Stable,
                mode: Mode::Debug,
                edition: Some("2018"@),
                crate_type: CrateType::Bin,
                tests: false,
                backtrace: false,
                code: code@,
            }),
    {
        Request {
            code,
            channel: Channel::Stable,
            crate_type: CrateType::Bin,
            mode: Mode::Debug,
            edition: Some(String::from_str("2018")),
            backtrace: false,
            tests: false,
        }
    }

    pub fn new_with(
        code: String,
        channel: Channel,
        mode: Mode,
        edition: Option<String>,
        crate_type: CrateType,
    ) -> (r: Request)
        ensures
            r@ == (RequestView {
                channel,
                mode,
                edition: edition_view(edition),
                crate_type,
                tests: false,
                backtrace: false,
                code: code@,
            }),
    {
        Request { code, channel, crate_type, mode, edition, backtrace: false, tests: false }
    }

    pub fn code(&self) -> (r: &str)
        ensures
            r@ == self@.code,
    {
        self.code.as_str()
    }

    pub fn set_code(&mut self, code: String)
        ensures
            final(self)@ == (RequestView { code: code@, ..old(self)@ }),
    {
        self.code = code;
    }

    pub fn channel(&self) -> (r: Channel)
        ensures
            r == self@.channel,
    {
        self.channel
    }

    pub fn set_channel(&mut self, channel: Channel)
        ensures
            final(self)@ == (RequestView { channel, ..old(self)@ }),
    {
        self.channel = channel;
    }

    pub fn backtrace(&self) -> (r: bool)
        ensures
            r == self@.backtrace,
    {
        self.backtrace
    }

    pub fn set_backtrace(&mut self, state: bool)
        ensures
            final(self)@ == (RequestView { backtrace: state, ..old(self)@ }),
    {
        self.backtrace = state;
    }

    pub fn tests(&self) -> (r: bool)
        ensures
            r == self@.tests,
    {
        self.tests
    }

    pub fn mode(&self) -> (r: Mode)
        ensures
            r == self@.mode,
    {
        self.mode
    }

    pub fn set_mode(&mut self, mode: Mode)
        ensures
            final(self)@ == (RequestView { mode, ..old(self)@ }),
    {
        self.mode = mode;
    }

    /// The edition, taking the request apart.
    pub fn edition(self) -> (r: Option<String>)
        ensures
            edition_view(r) == self@.edition,
    {
        self.edition
    }

    /// The edition, leaving the request as it is.
    pub fn edition_name(&self) -> (r: Option<&str>)
        ensures
            match r {
                Some(e) => self@.edition == Some(e@),
                None => self@.edition is None,
            },
    {
        match &self.edition {
            Some(e) => Some(e.as_str()),
            None => None,
        }
    }

    pub fn set_edition(&mut self, edition: Option<String>)
        ensures
            final(self)@ == (RequestView { edition: edition_view(edition), ..old(self)@ }),
    {
        self.edition = edition;
    }

    pub fn crate_type(&self) -> (r: CrateType)
        ensures
            r == self@.crate_type,
    {
        self.crate_type
    }

    pub fn set_crate_type(&mut self, crate_type: CrateType)
        ensures
            final(self)@ == (RequestView { crate_type, ..old(self)@ }),
    {
        self.crate_type = crate_type;
    }
}

/// The outcome of running a request.
pub struct Response {
    pub stderr: String,
    pub stdout: String,
    pub success: bool,
}

/// The toolchain version the playground reports for a channel.
pub struct Version {
    pub date: String,
    pub hash: String,
    pub version: String,
}

/// The crates the playground offers.
pub struct Crates {
    crates: Vec<Crate>,
}

/// One crate the playground offers.
pub struct Crate {
    name: String,
    version: String,
    id: String,
}

impl Crates {
    pub fn new(crates: Vec<Crate>) -> (r: Crates)
        ensures
            r.len() == crates@.len(),
    {
        Crates { crates }
    }

    pub closed spec fn len(&self) -> nat {
        self.crates@.len()
    }
}

impl Crate {
    pub fn new(name: String, version: String, id: String) -> (r: Crate)
        ensures
            r.name_view() == name@,
            r.version_view() == version@,
            r.id_view() == id@,
    {
        Crate { name, version, id }
    }

    pub closed spec fn name_view(&self) -> Seq<char> {
        self.name@
    }

    pub closed spec fn version_view(&self) -> Seq<char> {
        self.version@
    }

    pub closed spec fn id_view(&self) -> Seq<char> {
        self.id@
    }
}

/// Where the playground reports the version of `channel`.
pub fn version_url(channel: Channel) -> (r: String)
    ensures
        r@ == "https://play.rust-lang.org/meta/version/"@ + channel_name(channel),
{
    let mut url = String::from_str("https://play.rust-lang.org/meta/version/");
    url.append(channel.as_str());
    url
}

/// The playground page that shows gist `gist` on `channel` in `mode`.
pub fn paste_url(gist: &str, channel: Channel, mode: Mode) -> (r: String)
    ensures
        r@ == "https://play.rust-lang.org/?gist="@ + gist@ + "&version="@ + channel_name(channel)
            + "&mode="@ + mode_name(mode),
{
    let mut url = String::from_str("https://play.rust-lang.org/?gist=");
    url.append(gist);
    url.append("&version=");
    url.append(channel.as_str());
    url.append("&mode=");
    url.append(mode.as_str());
    url
}

} // verus!
