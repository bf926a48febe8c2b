//! Settings of the bridge.

use vstd::prelude::*;

verus! {

/// A span of time to wait, to the millisecond.
#[derive(Debug, Clone, Copy, PartialEq, Eq)]
pub struct Timeout {
    pub secs: u64,
    /// The milliseconds beyond the whole seconds.
    pub millis: u16,
}

impl Timeout {
    /// Whether the milliseconds make up less than a second.
    pub open spec fn well_formed(self) -> bool {
        self.millis < 1000
    }

    /// The span in milliseconds.
    pub open spec fn total_millis(self) -> nat {
        (1000 * self.secs + self.millis) as nat
    }

    /// A span of milliseconds.
    pub fn from_millis(millis: u64) -> (r: Timeout)
        ensures
            r.well_formed(),
            r.total_millis() == millis,
    {
        Timeout { secs: millis / 1000, millis: (millis % 1000) as u16 }
    }

    /// A span of seconds.
    pub fn from_secs(secs: u64) -> (r: Timeout)
        ensures
            r.well_formed(),
            r.total_millis() == 1000 * secs,
            r.secs == secs,
    {
        Timeout { secs, millis: 0 }
    }

    /// The whole seconds of the span.
    pub fn as_secs(&self) -> (r: u64)
        ensures
            r == self.secs,
            self.well_formed() ==> r == self.total_millis() / 1000,
    {
        self.secs
    }

    /// Whether a time that has passed is within the span.
    pub fn covers(&self, elapsed_nanos: u128) -> (r: bool)
        ensures
            r == (elapsed_nanos <= 1000000 * self.total_millis()),
    {
        let millis: u128 = 1000 * (self.secs as u128) + self.millis as u128;
        elapsed_nanos <= 1000000 * millis
    }
}

/// The command line and environment.
#[derive(Debug, Clone)]
pub struct Cli {
    /// Dial string from the modem.
    pub dial_string: String,
    /// Inherited socket file descriptor from the modem.
    pub socket_fd: i32,
    /// Target media endpoint address.
    pub media_addr: String,
    /// ARI base URL.
    pub ari_base_url: String,
    /// ARI username.
    pub ari_username: String,
    /// ARI password.
    pub ari_password: String,
    /// Dial endpoint template, in which `{dial}` stands for the dial string.
    pub ari_dial_endpoint_template: String,
    /// Outbound caller ID number.
    pub caller_id: String,
    /// How long an outbound channel may take to be answered, in seconds.
    pub originate_timeout_secs: u64,
    /// How long connecting to the media endpoint may take, in milliseconds.
    pub connect_timeout_ms: u64,
}

/// The settings of the bridge.
#[derive(Debug, Clone)]
pub struct Config {
    pub dial_string: String,
    pub socket_fd: i32,
    pub media_addr: String,
    pub connect_timeout: Timeout,
    pub ari_base_url: String,
    pub ari_username: String,
    pub ari_password: String,
    pub ari_dial_endpoint_template: String,
    pub originate_timeout: Timeout,
    pub caller_id: String,
}

/// The settings that a command line asks for.
pub open spec fn config_of(cli: Cli) -> Config {
    Config {
        dial_string: cli.dial_string,
        socket_fd: cli.socket_fd,
        media_addr: cli.media_addr,
        connect_timeout: Timeout {
            secs: cli.connect_timeout_ms / 1000,
            millis: (cli.connect_timeout_ms % 1000) as u16,
        },
        ari_base_url: cli.ari_base_url,
        ari_username: cli.ari_username,
        ari_password: cli.ari_password,
        ari_dial_endpoint_template: cli.ari_dial_endpoint_template,
        originate_timeout: Timeout { secs: cli.originate_timeout_secs, millis: 0 },
        caller_id: cli.caller_id,
    }
}

impl From<Cli> for Config {
    fn from(cli: Cli) -> (r: Config) {
        Config {
            dial_string: cli.dial_string,
            socket_fd: cli.socket_fd,
            media_addr: cli.media_addr,
            connect_timeout: Timeout::from_millis(cli.connect_timeout_ms),
            ari_base_url: cli.ari_base_url,
            ari_username: cli.ari_username,
            ari_password: cli.ari_password,
            ari_dial_endpoint_template: cli.ari_dial_endpoint_template,
            originate_timeout: Timeout::from_secs(cli.originate_timeout_secs),
            caller_id: cli.caller_id,
        }
    }
}

impl vstd::std_specs::convert::FromSpecImpl<Cli> for Config {
    open spec fn obeys_from_spec() -> bool {
        true
    }

    open spec fn from_spec(cli: Cli) -> Config {
        config_of(cli)
    }
}

/// The settings are those of the command line; of its two waits, one is given in
/// milliseconds and the other in seconds.
pub proof fn law_config(cli: Cli)
    ensures
        ({
            let c = config_of(cli);
            &&& c.connect_timeout.well_formed() && c.originate_timeout.well_formed()
            &&& c.connect_timeout.total_millis() == cli.connect_timeout_ms
            &&& c.originate_timeout.total_millis() == 1000 * cli.originate_timeout_secs
            &&& c.dial_string == cli.dial_string
            &&& c.socket_fd == cli.socket_fd
            &&& c.media_addr == cli.media_addr
            &&& c.ari_base_url == cli.ari_base_url
            &&& c.ari_username == cli.ari_username
            &&& c.ari_password == cli.ari_password
            &&& c.ari_dial_endpoint_template == cli.ari_dial_endpoint_template
            &&& c.caller_id == cli.caller_id
        }),
{
}

/// A span is longer by a thousand milliseconds for each second, and by one for
/// each millisecond beyond.
pub proof fn law_total_millis(a: Timeout, b: Timeout)
    ensures
        a.secs == 0 && a.millis == 0 ==> a.total_millis() == 0,
        b.secs == a.secs + 1 && b.millis == a.millis ==> b.total_millis() == a.total_millis()
            + 1000,
        b.secs == a.secs && b.millis == a.millis + 1 ==> b.total_millis() == a.total_millis() + 1,
{
}

} // verus!
