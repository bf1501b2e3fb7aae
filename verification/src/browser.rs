//! Decision logic of the browser provisioner: matching a discovered driver
//! against the pinned browser major version, the session capabilities for
//! a launch, the bounded channel-wait retry, and the anti-detection
//! commands issued once a session is ready. The surrounding process spawn,
//! port pick and network calls stay outside and act on what is computed
//! here.

use vstd::prelude::*;

use crate::text;

verus! {

/// The pinned browser major version the provisioner targets.
pub const PINNED_BROWSER_MAJOR: u32 = 128;

/// How many times the channel wait attempts to connect before giving up.
pub const CHANNEL_MAX_ATTEMPTS: u8 = 100;

/// The fixed backoff slept between failed connection attempts.
pub const CHANNEL_BACKOFF_MS: u32 = 50;

/// The character for the decimal digit `d`.
pub open spec fn digit_char(d: int) -> char {
    ((48 + d) as u8) as char
}

/// The decimal digits of `n`, most significant first.
pub open spec fn decimal_digits(n: int) -> Seq<char>
    decreases n,
{
    if n < 0 {
        Seq::empty()
    } else if n < 10 {
        seq![digit_char(n)]
    } else {
        decimal_digits(n / 10).push(digit_char(n % 10))
    }
}

fn digit_str(d: u32) -> (r: &'static str)
    requires
        d < 10,
    ensures
        r@ == seq![digit_char(d as int)],
{
    let r: &'static str = match d {
        0 => "0",
        1 => "1",
        2 => "2",
        3 => "3",
        4 => "4",
        5 => "5",
        6 => "6",
        7 => "7",
        8 => "8",
        _ => "9",
    };
    proof {
        reveal_strlit("0");
        reveal_strlit("1");
        reveal_strlit("2");
        reveal_strlit("3");
        reveal_strlit("4");
        reveal_strlit("5");
        reveal_strlit("6");
        reveal_strlit("7");
        reveal_strlit("8");
        reveal_strlit("9");
        assert(r@ =~= seq![digit_char(d as int)]);
    }
    r
}

/// Renders `n` in decimal.
pub fn u32_to_string(n: u32) -> (r: String)
    ensures
        r@ == decimal_digits(n as int),
    decreases n,
{
    if n < 10 {
        digit_str(n).to_owned()
    } else {
        let mut s = u32_to_string(n / 10);
        s.append(digit_str(n % 10));
        s
    }
}

/// How the provisioner obtains a driver binary for the pinned major
/// version.
#[derive(Debug, Clone, PartialEq, Eq)]
pub enum DriverPlan {
    /// A driver discovered in the environment already matches the pin.
    UseDiscovered { path: String },
    /// Nothing discovered matches; a driver of the pinned major version
    /// must be downloaded.
    DownloadMatching,
}

/// A discovered driver matches the pin when its version's text before the
/// first dot, trimmed, is exactly the pin's decimal digits.
pub open spec fn discovered_matches(version: Seq<char>, pin: u32) -> bool {
    let d = text::find_char(version, '.');
    let prefix = if d < 0 {
        version
    } else {
        version.subrange(0, d)
    };
    text::trim_spaces(prefix) == decimal_digits(pin as int)
}

/// Decides whether a driver discovered in the environment (its reported
/// version and path) can serve the pinned major version, or a matching
/// driver must be downloaded instead.
pub fn plan_driver_setup(pin: u32, discovered: Option<(String, String)>) -> (r: DriverPlan)
    ensures
        match discovered {
            Some(d) => {
                if discovered_matches(d.0@, pin) {
                    r == (DriverPlan::UseDiscovered { path: d.1 })
                } else {
                    r == DriverPlan::DownloadMatching
                }
            },
            None => r == DriverPlan::DownloadMatching,
        },
{
    match discovered {
        None => DriverPlan::DownloadMatching,
        Some((version, path)) => {
            let vref = version.as_str();
            let prefix = match text::find_char_in(vref, '.') {
                Some(d) => {
                    proof {
                        text::lemma_find_char(vref@, '.');
                    }
                    vref.substring_char(0, d)
                },
                None => vref,
            };
            let trimmed = text::trim_ascii(prefix);
            let pin_text = u32_to_string(pin);
            if trimmed.to_owned().eq(&pin_text) {
                DriverPlan::UseDiscovered { path }
            } else {
                DriverPlan::DownloadMatching
            }
        },
    }
}

/// What the provisioner does after one connection attempt on the
/// automation channel.
#[derive(Debug, Clone, Copy, PartialEq, Eq, Structural)]
pub enum ChannelAction {
    /// The channel opened; the session is ready.
    Ready,
    /// Sleep the fixed backoff, then attempt again.
    RetryAfterBackoff,
    /// The retry budget is spent; give up with the last error as cause.
    GiveUp,
}

/// One step of the channel wait: with `tries` failures so far, an attempt
/// either connects, exhausts the budget, or schedules a retry.
pub open spec fn channel_step(tries: u8, connected: bool) -> (u8, ChannelAction) {
    if connected {
        (tries, ChannelAction::Ready)
    } else if tries + 1 == CHANNEL_MAX_ATTEMPTS {
        ((tries + 1) as u8, ChannelAction::GiveUp)
    } else {
        ((tries + 1) as u8, ChannelAction::RetryAfterBackoff)
    }
}

/// Advances the channel wait by one attempt, per `channel_step`.
pub fn channel_wait_step(tries: u8, connected: bool) -> (r: (u8, ChannelAction))
    requires
        tries < CHANNEL_MAX_ATTEMPTS,
    ensures
        r == channel_step(tries, connected),
{
    if connected {
        (tries, ChannelAction::Ready)
    } else {
        let t = tries + 1;
        if t == CHANNEL_MAX_ATTEMPTS {
            (t, ChannelAction::GiveUp)
        } else {
            (t, ChannelAction::RetryAfterBackoff)
        }
    }
}

/// Driving the channel wait over a sequence of attempt outcomes, starting
/// with `tries` failures on the books: how many attempts run, how much
/// backoff is slept in total, and whether a session comes out.
pub open spec fn channel_run(outcomes: Seq<bool>, tries: u8) -> (int, int, bool)
    decreases outcomes.len(),
{
    if outcomes.len() == 0 {
        (0, 0, false)
    } else {
        let step = channel_step(tries, outcomes[0]);
        if step.1 is Ready {
            (1, 0, true)
        } else if step.1 is GiveUp {
            (1, 0, false)
        } else {
            let rest = channel_run(outcomes.drop_first(), step.0);
            (1 + rest.0, CHANNEL_BACKOFF_MS + rest.1, rest.2)
        }
    }
}

proof fn lemma_channel_wait_from(outcomes: Seq<bool>, n: int, t: u8)
    requires
        0 <= n,
        outcomes.len() == n + 1,
        forall|i: int| 0 <= i < n ==> !outcomes[i],
        outcomes[n],
        t < CHANNEL_MAX_ATTEMPTS,
    ensures
        n + t < CHANNEL_MAX_ATTEMPTS ==> channel_run(outcomes, t) == (
            n + 1,
            n * CHANNEL_BACKOFF_MS,
            true,
        ),
        n + t >= CHANNEL_MAX_ATTEMPTS ==> channel_run(outcomes, t) == (
            CHANNEL_MAX_ATTEMPTS - t,
            (CHANNEL_MAX_ATTEMPTS - t - 1) * CHANNEL_BACKOFF_MS,
            false,
        ),
    decreases n,
{
    if n == 0 {
        assert(outcomes[0]);
    } else {
        assert(!outcomes[0]);
        if t + 1 == CHANNEL_MAX_ATTEMPTS {
        } else {
            let rest = outcomes.drop_first();
            assert forall|i: int| 0 <= i < n - 1 implies !rest[i] by {
                assert(rest[i] == outcomes[i + 1]);
            }
            assert(rest[n - 1] == outcomes[n]);
            lemma_channel_wait_from(rest, n - 1, (t + 1) as u8);
        }
    }
}

/// Channel-wait retry: starting fresh, `n` consecutive connection failures
/// followed by a success yield a ready session after `n + 1` attempts with
/// `n` backoffs slept, as long as `n` stays under the budget; once `n`
/// reaches the budget the wait gives up after exactly the budgeted number
/// of attempts, whatever follows.
pub proof fn lemma_channel_wait_retries(outcomes: Seq<bool>, n: int)
    requires
        0 <= n,
        outcomes.len() == n + 1,
        forall|i: int| 0 <= i < n ==> !outcomes[i],
        outcomes[n],
    ensures
        n < CHANNEL_MAX_ATTEMPTS ==> channel_run(outcomes, 0) == (
            n + 1,
            n * CHANNEL_BACKOFF_MS,
            true,
        ),
        n >= CHANNEL_MAX_ATTEMPTS ==> channel_run(outcomes, 0) == (
            CHANNEL_MAX_ATTEMPTS as int,
            (CHANNEL_MAX_ATTEMPTS - 1) * CHANNEL_BACKOFF_MS,
            false,
        ),
{
    lemma_channel_wait_from(outcomes, n, 0);
}

/// The session capabilities computed for a provisioning attempt: the
/// browser arguments, in order, and the switches excluded from the
/// driver's defaults.
#[derive(Debug, Clone, PartialEq, Eq)]
pub struct CapabilitySet {
    pub args: Vec<String>,
    pub exclude_switches: Vec<String>,
}

/// The views of a sequence of strings.
pub open spec fn views_of(v: Seq<String>) -> Seq<Seq<char>> {
    v.map_values(|s: String| s@)
}

/// The browser arguments for a launch: sandbox and shared memory disabled,
/// the automation-controlled blink feature stripped, a fixed window size,
/// no info bar; headless mode adds the headless flag and quiets logging;
/// an available ad-block extension directory is loaded last.
pub open spec fn expected_args(headless: bool, extension_dir: Option<Seq<char>>) -> Seq<
    Seq<char>,
> {
    let base = seq![
        "--no-sandbox"@,
        "--disable-dev-shm-usage"@,
        "--disable-blink-features=AutomationControlled"@,
        "window-size=1920,1080"@,
        "disable-infobars"@,
    ];
    let with_mode = if headless {
        base + seq!["--headless=old"@, "--log-level=3"@]
    } else {
        base
    };
    match extension_dir {
        Some(d) => with_mode + seq!["--load-extension="@ + d],
        None => with_mode,
    }
}

/// The switches excluded from the driver's defaults: `enable-automation`
/// always, and `enable-logging` too when running headless.
pub open spec fn expected_excludes(headless: bool) -> Seq<Seq<char>> {
    if headless {
        seq!["enable-logging"@, "enable-automation"@]
    } else {
        seq!["enable-automation"@]
    }
}

/// Computes the session capabilities for a provisioning attempt.
pub fn build_capabilities(headless: bool, extension_dir: Option<&str>) -> (r: CapabilitySet)
    ensures
        views_of(r.args@) == expected_args(
            headless,
            match extension_dir {
                Some(d) => Some(d@),
                None => None,
            },
        ),
        views_of(r.exclude_switches@) == expected_excludes(headless),
{
    let mut args: Vec<String> = Vec::new();
    args.push("--no-sandbox".to_owned());
    args.push("--disable-dev-shm-usage".to_owned());
    args.push("--disable-blink-features=AutomationControlled".to_owned());
    args.push("window-size=1920,1080".to_owned());
    args.push("disable-infobars".to_owned());
    if headless {
        args.push("--headless=old".to_owned());
        args.push("--log-level=3".to_owned());
    }
    match extension_dir {
        Some(d) => {
            let mut load = "--load-extension=".to_owned();
            load.append(d);
            args.push(load);
        },
        None => {},
    }
    let mut exclude_switches: Vec<String> = Vec::new();
    if headless {
        exclude_switches.push("enable-logging".to_owned());
    }
    exclude_switches.push("enable-automation".to_owned());
    proof {
        let ghost ext = match extension_dir {
            Some(d) => Some(d@),
            None => None,
        };
        assert(views_of(args@) =~= expected_args(headless, ext));
        assert(views_of(exclude_switches@) =~= expected_excludes(headless));
    }
    CapabilitySet { args, exclude_switches }
}

/// The argument handed to the driver process so it binds the chosen
/// ephemeral port.
pub fn driver_port_arg(port: u16) -> (r: String)
    ensures
        r@ == "--port="@ + decimal_digits(port as int),
{
    let mut s = "--port=".to_owned();
    let digits = u32_to_string(port as u32);
    s.append(digits.as_str());
    s
}

/// One automation-protocol command: a method and the single string
/// parameter it takes.
#[derive(Debug, Clone, PartialEq, Eq)]
pub struct CdpCommand {
    pub method: String,
    pub param_name: String,
    pub param_value: String,
}

/// The page-init script injected before any navigation: it wraps the
/// navigator object in a proxy so probes for the automation flag see it
/// disabled, while every other property — methods rebound to the real
/// navigator — passes through untouched.
pub open spec fn navigator_patch_script() -> Seq<char> {
    r#"
                Object.defineProperty(window, "navigator", {
                    value: new Proxy(navigator, {
                        has: (target, key) => (key === "webdriver" ? false : key in target),
                        get: (target, key) =>
                        key === "webdriver"
                            ? false
                            : typeof target[key] === "function"
                            ? target[key].bind(target)
                            : target[key],
                    }),
                });
            "#@
}

/// The two commands run once per ready session, in order: drop any
/// pre-registered page-init script under the well-known identifier, then
/// install the navigator patch.
pub fn anti_detection_commands() -> (r: Vec<CdpCommand>)
    ensures
        r@.len() == 2,
        r@[0].method@ == "Page.removeScriptToEvaluateOnNewDocument"@,
        r@[0].param_name@ == "identifier"@,
        r@[0].param_value@ == "1"@,
        r@[1].method@ == "Page.addScriptToEvaluateOnNewDocument"@,
        r@[1].param_name@ == "source"@,
        r@[1].param_value@ == navigator_patch_script(),
{
    let mut v: Vec<CdpCommand> = Vec::new();
    v.push(
        CdpCommand {
            method: "Page.removeScriptToEvaluateOnNewDocument".to_owned(),
            param_name: "identifier".to_owned(),
            param_value: "1".to_owned(),
        },
    );
    v.push(
        CdpCommand {
            method: "Page.addScriptToEvaluateOnNewDocument".to_owned(),
            param_name: "source".to_owned(),
            param_value: r#"
                Object.defineProperty(window, "navigator", {
                    value: new Proxy(navigator, {
                        has: (target, key) => (key === "webdriver" ? false : key in target),
                        get: (target, key) =>
                        key === "webdriver"
                            ? false
                            : typeof target[key] === "function"
                            ? target[key].bind(target)
                            : target[key],
                    }),
                });
            "#.to_owned(),
        },
    );
    v
}

} // verus!
