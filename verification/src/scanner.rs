//! The scan session: the target, the settings, and the open ports once they
//! are known.
//!
//! A [`Scanner`] owns its [`Target`]. It hands out the scheduler of a scan,
//! takes the report at the end, and words the open ports and the command
//! lines for whoever works on them next. Running a command or opening a
//! socket is left to the caller.

use vstd::prelude::*;
use vstd::string::*;
use crate::aggregate::ScanReport;
use crate::ports::{ascending, canonical_ports, is_port_list, port_list};
use crate::error::ScanError;
use crate::listing::{line_bytes, listed_ports};
use crate::range::{ports_between, MAX_PORT, MIN_PORT};
use crate::render::{decimal, join_ports, joined, push_decimal, render_ports};
use crate::schedule::{ProbeScheduler, SchedulerState, DEFAULT_CONCURRENCY_LIMIT, DEFAULT_TIMEOUT_SECS};

verus! {

/// An option of a scan: one of the settings of a connect scan, in place of
/// its default.
#[derive(Clone, Copy, Debug, PartialEq, Eq)]
pub enum Options {
    /// Probe the ports from the first number to the second, both included,
    /// instead of all ports.
    Ports(u16, u16),
    /// Give each probe this many seconds instead of 10.
    Timeout(u64),
    /// Keep at most this many probes in flight instead of 1000.
    Concurrency(usize),
}

/// The settings of a connect scan.
#[derive(Clone, Copy, Debug)]
pub struct Settings {
    /// The first port to probe.
    pub start: u16,
    /// The last port to probe.
    pub end: u16,
    /// The seconds each probe may take.
    pub timeout_secs: u64,
    /// How many probes may be in flight at once.
    pub limit: usize,
}

impl Settings {
    /// The settings of a scan without options: all ports, 10 seconds, 1000
    /// probes in flight.
    pub open spec fn defaults() -> Settings {
        Settings {
            start: MIN_PORT,
            end: MAX_PORT,
            timeout_secs: DEFAULT_TIMEOUT_SECS,
            limit: DEFAULT_CONCURRENCY_LIMIT,
        }
    }

    /// The settings with one option applied.
    pub open spec fn with(self, option: Options) -> Settings {
        match option {
            Options::Ports(start, end) => Settings { start, end, ..self },
            Options::Timeout(timeout_secs) => Settings { timeout_secs, ..self },
            Options::Concurrency(limit) => Settings { limit, ..self },
        }
    }

    /// The settings are acceptable: the range is a range of ports, and the
    /// timeout and the limit are positive.
    pub open spec fn valid(self) -> bool {
        1 <= self.start <= self.end && self.timeout_secs > 0 && self.limit > 0
    }

    /// What is wrong with settings that are not acceptable: the range
    /// before the timeout, the timeout before the limit.
    pub open spec fn fault(self) -> ScanError {
        if !(1 <= self.start <= self.end) {
            ScanError::InvalidRange
        } else if self.timeout_secs == 0 {
            ScanError::InvalidTimeout
        } else {
            ScanError::InvalidConcurrencyLimit
        }
    }
}

/// The settings that a list of options gives: the defaults with the options
/// applied from the first to the last, so that of two options for the same
/// setting the later one counts.
pub open spec fn settings_of(options: Seq<Options>) -> Settings
    decreases options.len(),
{
    if options.len() == 0 {
        Settings::defaults()
    } else {
        settings_of(options.drop_last()).with(options.last())
    }
}

/// What a target is, as the contracts speak of it.
pub struct TargetView {
    /// The address, as text.
    pub address: Seq<char>,
    /// The name the target goes by.
    pub name: Seq<char>,
    /// The ports found open.
    pub open_ports: Seq<u16>,
}

/// The machine being scanned: its address, its name, and the ports found
/// open on it. Before a scan there are none.
pub struct Target {
    ip_addr: String,
    name: String,
    ports: Vec<u16>,
    open_ports: String,
}

impl View for Target {
    type V = TargetView;

    closed spec fn view(&self) -> TargetView {
        TargetView { address: self.ip_addr@, name: self.name@, open_ports: self.ports@ }
    }
}

impl Target {
    /// The open ports are in canonical form and their text is up to date.
    pub closed spec fn wf(&self) -> bool {
        &&& is_port_list(self.ports@)
        &&& self.open_ports@ == joined(self.ports@)
    }

    /// The open ports as text.
    pub closed spec fn open_ports_text(&self) -> Seq<char> {
        self.open_ports@
    }

    /// A target with its address, as text, its name, and the ports known to
    /// be open on it, which are put in canonical form.
    pub fn new(ip_addr: String, name: String, open_ports: Vec<u16>) -> (target: Target)
        ensures
            target.wf(),
            target@ == (TargetView {
                address: ip_addr@,
                name: name@,
                open_ports: port_list(open_ports@),
            }),
            target.open_ports_text() == joined(port_list(open_ports@)),
    {
        let ports = canonical_ports(&open_ports);
        let text = join_ports(&ports);
        Target { ip_addr, name, ports, open_ports: text }
    }

    /// The address of the target.
    pub fn ip(&self) -> (address: &str)
        ensures
            address@ == self@.address,
    {
        self.ip_addr.as_str()
    }

    /// The name of the target.
    pub fn name(&self) -> (name: &str)
        ensures
            name@ == self@.name,
    {
        self.name.as_str()
    }

    /// The open ports as text, such as `22,80,443`; empty before a scan and
    /// when nothing is open.
    pub fn open_ports(&self) -> (text: &str)
        ensures
            text@ == self.open_ports_text(),
            self.wf() ==> text@ == joined(self@.open_ports),
    {
        self.open_ports.as_str()
    }

    /// The open ports, ascending.
    pub fn ports(&self) -> (ports: &Vec<u16>)
        ensures
            ports@ == self@.open_ports,
            self.wf() ==> is_port_list(ports@),
    {
        &self.ports
    }

    /// Replaces the open ports by those of a list, put in canonical form.
    fn set_ports(&mut self, open_ports: &Vec<u16>)
        ensures
            final(self).wf(),
            final(self)@ == (TargetView { open_ports: port_list(open_ports@), ..old(self)@ }),
    {
        let ports = canonical_ports(open_ports);
        let text = join_ports(&ports);
        self.ports = ports;
        self.open_ports = text;
    }
}

/// What a scanner is, as the contracts speak of it.
pub struct ScannerView {
    /// The target.
    pub target: TargetView,
    /// The timing template handed to the external scanner.
    pub speed: u8,
    /// The options, in the order given.
    pub options: Seq<Options>,
}

/// A scan session on one target.
pub struct Scanner {
    target: Target,
    speed: u8,
    options: Vec<Options>,
}

impl View for Scanner {
    type V = ScannerView;

    closed spec fn view(&self) -> ScannerView {
        ScannerView { target: self.target@, speed: self.speed, options: self.options@ }
    }
}

/// The text of a target's description: the address, a blank, and the name
/// in round brackets.
pub open spec fn target_info_text(target: TargetView) -> Seq<char> {
    target.address + seq![' ', '('] + target.name + seq![')']
}

/// The arguments of the full-port scan of the external scanner, run under
/// `sudo`: a SYN scan of all ports at the session's timing template, with
/// its output under `./nmap/`, named after the target.
pub open spec fn full_scan_args_text(scanner: ScannerView) -> Seq<Seq<char>> {
    seq![
        "nmap"@,
        "-sS"@,
        "-p-"@,
        "-T"@ + decimal(scanner.speed as nat),
        "-oA"@,
        full_scan_outfile_text(scanner.target),
        scanner.target.address,
    ]
}

/// The path, without extension, of the output of the full-port scan.
pub open spec fn full_scan_outfile_text(target: TargetView) -> Seq<char> {
    "./nmap/"@ + target.name + "-all-ports"@
}

/// The path of the listing that the full-port scan writes.
pub open spec fn listing_path_text(target: TargetView) -> Seq<char> {
    full_scan_outfile_text(target) + ".nmap"@
}

/// The arguments of the script scan of the external scanner: scripts and
/// versions, on the open ports only.
pub open spec fn script_scan_args_text(target: TargetView) -> Seq<Seq<char>> {
    seq![
        "-sC"@,
        "-sV"@,
        "-oA"@,
        "nmap/"@ + target.name,
        target.address,
        "-p"@,
        joined(target.open_ports),
    ]
}

impl Scanner {
    /// The session's target is well formed.
    pub closed spec fn wf(&self) -> bool {
        self.target.wf()
    }

    /// The target of the session.
    pub closed spec fn the_target(&self) -> Target {
        self.target
    }

    /// A session on `target`, with the timing template `speed` and the
    /// options given.
    pub fn new(target: Target, speed: u8, options: Vec<Options>) -> (scanner: Scanner)
        ensures
            scanner.the_target() == target,
            scanner@ == (ScannerView { target: target@, speed, options: options@ }),
            target.wf() ==> scanner.wf(),
    {
        Scanner { target, speed, options }
    }

    /// The target.
    pub fn target(&self) -> (target: &Target)
        ensures
            *target == self.the_target(),
            target@ == self@.target,
            self.wf() ==> target.wf(),
    {
        &self.target
    }

    /// The timing template.
    pub fn speed(&self) -> (speed: &u8)
        ensures
            *speed == self@.speed,
    {
        &self.speed
    }

    /// The options.
    pub fn options(&self) -> (options: &Vec<Options>)
        ensures
            options@ == self@.options,
    {
        &self.options
    }

    /// A line that describes the target: `10.0.0.7 (web)`.
    pub fn target_info(&self) -> (info: String)
        ensures
            info@ == target_info_text(self@.target),
    {
        proof {
            reveal_strlit(" (");
            reveal_strlit(")");
        }
        let mut info = self.target.ip_addr.clone();
        info.append(" (");
        info.append(self.target.name.as_str());
        info.append(")");
        assert(info@ =~= target_info_text(self@.target));
        info
    }

    /// The ports as text: sorted ascending, each port once, joined by
    /// commas, as in `22,80,443`. The order of the list and what it holds
    /// twice leave no trace in the text. No ports give the empty text.
    pub fn vec_as_str(&self, open_ports_vec: &Vec<u16>) -> (text: String)
        ensures
            text@ == joined(ascending(open_ports_vec@.to_set())),
    {
        render_ports(open_ports_vec)
    }

    /// Reads the listing of an external scanner, given as the bytes of its
    /// lines, and words the open ports it reports: sorted ascending, each
    /// port once. A listing with a malformed line gives `None`.
    pub fn parse_ports(&self, lines: &Vec<Vec<u8>>) -> (text: Option<String>)
        ensures
            match text {
                Some(text) => listed_ports(line_bytes(lines@)) matches Some(ports) && text@
                    == joined(ascending(ports.to_set())),
                None => listed_ports(line_bytes(lines@)) is None,
            },
    {
        match crate::listing::parse_ports(lines) {
            Some(ports) => Some(join_ports(&ports)),
            None => None,
        }
    }

    /// The settings of the session's connect scan: the defaults, changed by
    /// the options.
    pub fn settings(&self) -> (settings: Settings)
        ensures
            settings == settings_of(self@.options),
    {
        let mut settings = Settings {
            start: MIN_PORT,
            end: MAX_PORT,
            timeout_secs: DEFAULT_TIMEOUT_SECS,
            limit: DEFAULT_CONCURRENCY_LIMIT,
        };
        let mut at: usize = 0;
        while at < self.options.len()
            invariant
                at <= self.options@.len(),
                settings == settings_of(self.options@.take(at as int)),
            decreases self.options@.len() - at,
        {
            proof {
                let upto = self.options@.take(at + 1);
                assert(upto.drop_last() == self.options@.take(at as int));
                assert(upto.last() == self.options@[at as int]);
            }
            match self.options[at] {
                Options::Ports(start, end) => {
                    settings.start = start;
                    settings.end = end;
                },
                Options::Timeout(timeout_secs) => {
                    settings.timeout_secs = timeout_secs;
                },
                Options::Concurrency(limit) => {
                    settings.limit = limit;
                },
            }
            at = at + 1;
        }
        assert(self.options@.take(at as int) == self.options@);
        settings
    }

    /// The scheduler of a TCP connect scan of the target. Without options
    /// it probes all ports from 1 to 65535, gives each probe 10 seconds and
    /// keeps at most 1000 probes in flight. Settings that are not
    /// acceptable are refused here, before anything is probed.
    pub fn connect_scan(&self) -> (r: Result<ProbeScheduler, ScanError>)
        ensures
            r is Ok <==> settings_of(self@.options).valid(),
            r matches Ok(scheduler) ==> scheduler.wf() && scheduler@ == SchedulerState::initial(
                ports_between(
                    settings_of(self@.options).start as int,
                    settings_of(self@.options).end as int,
                ),
                settings_of(self@.options).timeout_secs,
                settings_of(self@.options).limit as nat,
            ),
            r matches Err(e) ==> e == settings_of(self@.options).fault(),
    {
        let settings = self.settings();
        ProbeScheduler::configure(
            settings.start,
            settings.end,
            settings.timeout_secs,
            settings.limit,
        )
    }

    /// Takes over the open ports of a report: they become the target's, in
    /// canonical form. The rest of the session stays as it is.
    pub fn record(&mut self, report: ScanReport)
        ensures
            final(self).wf(),
            final(self)@ == (ScannerView {
                target: TargetView {
                    open_ports: port_list(report@.open_ports),
                    ..old(self)@.target
                },
                ..old(self)@
            }),
    {
        let ports = report.into_open_ports();
        self.target.set_ports(&ports);
    }

    /// Takes over a list of open ports from elsewhere, such as the listing
    /// of an external scanner: they become the target's, in canonical form.
    pub fn record_ports(&mut self, open_ports: &Vec<u16>)
        ensures
            final(self).wf(),
            final(self)@ == (ScannerView {
                target: TargetView { open_ports: port_list(open_ports@), ..old(self)@.target },
                ..old(self)@
            }),
    {
        self.target.set_ports(open_ports);
    }

    /// The arguments of the full-port scan.
    pub fn full_scan_args(&self) -> (args: Vec<String>)
        ensures
            args@.len() == 7,
            forall|i: int| 0 <= i < 7 ==> #[trigger] args@[i]@ == full_scan_args_text(self@)[i],
    {
        let mut timing = String::from_str("-T");
        push_decimal(&mut timing, self.speed as u16);
        let mut args: Vec<String> = Vec::new();
        args.push(String::from_str("nmap"));
        args.push(String::from_str("-sS"));
        args.push(String::from_str("-p-"));
        args.push(timing);
        args.push(String::from_str("-oA"));
        args.push(self.full_scan_outfile());
        args.push(self.target.ip_addr.clone());
        args
    }

    /// The path, without extension, of the output of the full-port scan.
    pub fn full_scan_outfile(&self) -> (path: String)
        ensures
            path@ == full_scan_outfile_text(self@.target),
    {
        let mut path = String::from_str("./nmap/");
        path.append(self.target.name.as_str());
        path.append("-all-ports");
        path
    }

    /// The path of the listing that the full-port scan writes.
    pub fn listing_path(&self) -> (path: String)
        ensures
            path@ == listing_path_text(self@.target),
    {
        let mut path = self.full_scan_outfile();
        path.append(".nmap");
        path
    }

    /// The arguments of the script scan on the open ports.
    pub fn script_scan_args(&self) -> (args: Vec<String>)
        requires
            self.wf(),
        ensures
            args@.len() == 7,
            forall|i: int|
                0 <= i < 7 ==> #[trigger] args@[i]@ == script_scan_args_text(self@.target)[i],
    {
        let mut outfile = String::from_str("nmap/");
        outfile.append(self.target.name.as_str());
        let mut args: Vec<String> = Vec::new();
        args.push(String::from_str("-sC"));
        args.push(String::from_str("-sV"));
        args.push(String::from_str("-oA"));
        args.push(outfile);
        args.push(self.target.ip_addr.clone());
        args.push(String::from_str("-p"));
        args.push(self.target.open_ports.clone());
        args
    }
}

} // verus!
