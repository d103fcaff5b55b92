//! The command line.

use vstd::prelude::*;

use crate::config::GraphicsEnv;
use crate::mac_display::DisplayEnv;
use crate::text::{
    blank, decimal, lemma_decimal_parses, lemma_nothing_to_trim, lemma_trimmed_between,
    lemma_trimmed_twice, lowered, parse, parsed, same, same_ignoring_case, to_decimal, trim, trimmed,
    white,
};

verus! {

/// What the environment says of the server.
#[derive(Debug, Clone)]
pub struct CliEnv {
    /// `RDP_USER`
    pub user: Option<String>,
    /// `RDP_PASSWORD`
    pub password: Option<String>,
    /// `RDP_DOMAIN`
    pub domain: Option<String>,
    /// `RDP_PORT`
    pub port: Option<String>,
    /// `RDP_HOST`
    pub host: Option<String>,
    /// `RDP_COLOR`
    pub color: Option<String>,
    /// `RDP_BITS`
    pub bits: Option<String>,
    /// `RDP_TILE`
    pub tile: Option<String>,
    /// `RDP_FPS`
    pub fps: Option<String>,
    /// `RDP_RES`
    pub res: Option<String>,
    /// `RDP_MODE`
    pub mode: Option<String>,
    /// `RDP_NO_LOG`
    pub no_log: Option<String>,
}

/// How the server is to run.
#[derive(Debug, Clone)]
pub struct CliConfig {
    pub user: String,
    pub password: String,
    pub domain: Option<String>,
    pub port: u16,
    pub host: String,
    pub color: String,
    pub tile: String,
    pub fps: u32,
    pub res: String,
    pub mode: String,
    pub no_log: bool,
    pub verbose: bool,
    pub daemon: bool,
    pub quit: bool,
    pub status: bool,
    pub help: bool,
}

/// What [`CliConfig`] stands for.
pub struct CliModel {
    pub user: Seq<char>,
    pub password: Seq<char>,
    pub domain: Option<Seq<char>>,
    pub port: u16,
    pub host: Seq<char>,
    pub color: Seq<char>,
    pub tile: Seq<char>,
    pub fps: u32,
    pub res: Seq<char>,
    pub mode: Seq<char>,
    pub no_log: bool,
    pub verbose: bool,
    pub daemon: bool,
    pub quit: bool,
    pub status: bool,
    pub help: bool,
}

/// What an optional text holds.
pub open spec fn text_of(s: Option<String>) -> Option<Seq<char>> {
    match s {
        Some(s) => Some(s@),
        None => None,
    }
}

impl View for CliConfig {
    type V = CliModel;

    open spec fn view(&self) -> CliModel {
        CliModel {
            user: self.user@,
            password: self.password@,
            domain: text_of(self.domain),
            port: self.port,
            host: self.host@,
            color: self.color@,
            tile: self.tile@,
            fps: self.fps,
            res: self.res@,
            mode: self.mode@,
            no_log: self.no_log,
            verbose: self.verbose,
            daemon: self.daemon,
            quit: self.quit,
            status: self.status,
            help: self.help,
        }
    }
}

/// What the texts hold.
pub open spec fn texts(args: Seq<String>) -> Seq<Seq<char>> {
    Seq::new(args.len(), |i: int| args[i]@)
}

/// A text, or the default.
pub open spec fn text_or(s: Option<String>, default: Seq<char>) -> Seq<char> {
    match s {
        Some(s) => s@,
        None => default,
    }
}

/// The number that a text spells, or the default.
pub open spec fn number_or(s: Seq<char>, max: int, default: int) -> int {
    match parsed(s, 10, max) {
        Some(n) => n,
        None => default,
    }
}

/// A domain, of which a blank one is none.
pub open spec fn domain_named(s: Seq<char>) -> Option<Seq<char>> {
    if trimmed(s).len() == 0 {
        None
    } else {
        Some(trimmed(s))
    }
}

impl CliEnv {
    /// How the server is to run where the command line says nothing.
    pub open spec fn defaults(self) -> CliModel {
        CliModel {
            user: text_or(self.user, "dev"@),
            password: text_or(self.password, "12345678"@),
            domain: match self.domain {
                Some(s) => domain_named(s@),
                None => None,
            },
            port: (match self.port {
                Some(s) => number_or(s@, u16::MAX as int, 3389),
                None => 3389,
            }) as u16,
            host: text_or(self.host, "0.0.0.0"@),
            color: match self.color {
                Some(s) => s@,
                None => text_or(self.bits, "6bit"@),
            },
            tile: text_or(self.tile, "320x24"@),
            fps: (match self.fps {
                Some(s) => number_or(s@, u32::MAX as int, 60),
                None => 60,
            }) as u32,
            res: text_or(self.res, "native"@),
            mode: text_or(self.mode, "speed"@),
            no_log: match self.no_log {
                Some(s) => s@ == "1"@ || lowered(s@) == lowered("true"@),
                None => false,
            },
            verbose: false,
            daemon: false,
            quit: false,
            status: false,
            help: false,
        }
    }
}

/// The options of the command line.
#[derive(Debug, Clone, Copy, PartialEq, Eq, Structural)]
pub enum CliOption {
    User,
    Password,
    Domain,
    Port,
    Host,
    Color,
    Tile,
    Fps,
    Res,
    Mode,
    Verbose,
    Daemon,
    Quit,
    Status,
    NoLog,
    Help,
    Unknown,
}

/// The option that an argument names.
pub open spec fn option_named(arg: Seq<char>) -> CliOption {
    if arg == "-u"@ || arg == "--user"@ || arg == "--username"@ {
        CliOption::User
    } else if arg == "-p"@ || arg == "--password"@ || arg == "--pass"@ {
        CliOption::Password
    } else if arg == "-D"@ || arg == "--domain"@ {
        CliOption::Domain
    } else if arg == "-P"@ || arg == "--port"@ {
        CliOption::Port
    } else if arg == "-H"@ || arg == "--host"@ {
        CliOption::Host
    } else if arg == "-c"@ || arg == "--color"@ || arg == "--bits"@ {
        CliOption::Color
    } else if arg == "-t"@ || arg == "--tile"@ {
        CliOption::Tile
    } else if arg == "-f"@ || arg == "--fps"@ {
        CliOption::Fps
    } else if arg == "-r"@ || arg == "--res"@ || arg == "--resolution"@ {
        CliOption::Res
    } else if arg == "-m"@ || arg == "--mode"@ {
        CliOption::Mode
    } else if arg == "-v"@ || arg == "--verbose"@ || arg == "--debug"@ {
        CliOption::Verbose
    } else if arg == "-d"@ || arg == "--daemon"@ || arg == "start"@ {
        CliOption::Daemon
    } else if arg == "-q"@ || arg == "--quit"@ || arg == "stop"@ {
        CliOption::Quit
    } else if arg == "-s"@ || arg == "--status"@ || arg == "status"@ {
        CliOption::Status
    } else if arg == "-nl"@ || arg == "--no-log"@ {
        CliOption::NoLog
    } else if arg == "-h"@ || arg == "--help"@ || arg == "help"@ {
        CliOption::Help
    } else {
        CliOption::Unknown
    }
}

impl CliOption {
    /// Whether the argument that follows is the option's value.
    pub open spec fn has_value(self) -> bool {
        match self {
            CliOption::User | CliOption::Password | CliOption::Domain | CliOption::Port
            | CliOption::Host | CliOption::Color | CliOption::Tile | CliOption::Fps | CliOption::Res
            | CliOption::Mode => true,
            _ => false,
        }
    }

    /// Whether the argument that follows is the option's value.
    fn takes_value(&self) -> (r: bool)
        ensures
            r == self.has_value(),
    {
        match self {
            CliOption::User | CliOption::Password | CliOption::Domain | CliOption::Port
            | CliOption::Host | CliOption::Color | CliOption::Tile | CliOption::Fps | CliOption::Res
            | CliOption::Mode => true,
            _ => false,
        }
    }
}

impl CliModel {
    /// What an option with its value makes of it. A number that is none is passed over.
    pub open spec fn with_value(self, option: CliOption, value: Seq<char>) -> CliModel {
        match option {
            CliOption::User => CliModel { user: value, ..self },
            CliOption::Password => CliModel { password: value, ..self },
            CliOption::Domain => CliModel { domain: domain_named(value), ..self },
            CliOption::Port => CliModel {
                port: number_or(value, u16::MAX as int, self.port as int) as u16,
                ..self
            },
            CliOption::Host => CliModel { host: value, ..self },
            CliOption::Color => CliModel { color: value, ..self },
            CliOption::Tile => CliModel { tile: value, ..self },
            CliOption::Fps => CliModel {
                fps: number_or(value, u32::MAX as int, self.fps as int) as u32,
                ..self
            },
            CliOption::Res => CliModel { res: value, ..self },
            CliOption::Mode => CliModel { mode: value, ..self },
            _ => self,
        }
    }

    /// What an option without a value makes of it.
    pub open spec fn with_flag(self, option: CliOption) -> CliModel {
        match option {
            CliOption::Verbose => CliModel { verbose: true, ..self },
            CliOption::Daemon => CliModel { daemon: true, ..self },
            CliOption::Quit => CliModel { quit: true, ..self },
            CliOption::Status => CliModel { status: true, ..self },
            CliOption::NoLog => CliModel { no_log: true, ..self },
            CliOption::Help => CliModel { help: true, ..self },
            _ => self,
        }
    }

    /// What the arguments from number `i` on make of it. An option whose value is missing counts for
    /// nothing, and so does what is no option.
    pub open spec fn with_args(self, args: Seq<Seq<char>>, i: int) -> CliModel
        decreases args.len() - i,
    {
        if i >= args.len() {
            self
        } else {
            let option = option_named(args[i]);
            if option.has_value() {
                if i + 1 < args.len() {
                    self.with_value(option, args[i + 1]).with_args(args, i + 2)
                } else {
                    self
                }
            } else {
                self.with_flag(option).with_args(args, i + 1)
            }
        }
    }
}

/// The option that an argument names.
fn option_of(arg: &str) -> (r: CliOption)
    ensures
        r == option_named(arg@),
{
    if same(arg, "-u") || same(arg, "--user") || same(arg, "--username") {
        CliOption::User
    } else if same(arg, "-p") || same(arg, "--password") || same(arg, "--pass") {
        CliOption::Password
    } else if same(arg, "-D") || same(arg, "--domain") {
        CliOption::Domain
    } else if same(arg, "-P") || same(arg, "--port") {
        CliOption::Port
    } else if same(arg, "-H") || same(arg, "--host") {
        CliOption::Host
    } else if same(arg, "-c") || same(arg, "--color") || same(arg, "--bits") {
        CliOption::Color
    } else if same(arg, "-t") || same(arg, "--tile") {
        CliOption::Tile
    } else if same(arg, "-f") || same(arg, "--fps") {
        CliOption::Fps
    } else if same(arg, "-r") || same(arg, "--res") || same(arg, "--resolution") {
        CliOption::Res
    } else if same(arg, "-m") || same(arg, "--mode") {
        CliOption::Mode
    } else if same(arg, "-v") || same(arg, "--verbose") || same(arg, "--debug") {
        CliOption::Verbose
    } else if same(arg, "-d") || same(arg, "--daemon") || same(arg, "start") {
        CliOption::Daemon
    } else if same(arg, "-q") || same(arg, "--quit") || same(arg, "stop") {
        CliOption::Quit
    } else if same(arg, "-s") || same(arg, "--status") || same(arg, "status") {
        CliOption::Status
    } else if same(arg, "-nl") || same(arg, "--no-log") {
        CliOption::NoLog
    } else if same(arg, "-h") || same(arg, "--help") || same(arg, "help") {
        CliOption::Help
    } else {
        CliOption::Unknown
    }
}

/// A text, or the default.
fn string_or(s: &Option<String>, default: &str) -> (r: String)
    ensures
        r@ == text_or(*s, default@),
{
    match s {
        Some(s) => s.clone(),
        None => default.to_owned(),
    }
}

/// A domain, of which a blank one is none.
fn domain_of(s: &str) -> (r: Option<String>)
    ensures
        text_of(r) == domain_named(s@),
{
    let clean = trim(s);
    if clean.as_str().is_empty() {
        None
    } else {
        Some(clean)
    }
}

impl CliConfig {
    /// How the server is to run where the command line says nothing.
    fn from_env(env: &CliEnv) -> (r: CliConfig)
        ensures
            r@ == env.defaults(),
    {
        let domain = match &env.domain {
            Some(s) => domain_of(s.as_str()),
            None => None,
        };
        let port: u16 = match &env.port {
            Some(s) => match parse(s.as_str(), 10, 65535) {
                Some(n) => n as u16,
                None => 3389,
            },
            None => 3389,
        };
        let fps: u32 = match &env.fps {
            Some(s) => match parse(s.as_str(), 10, u32::MAX as u64) {
                Some(n) => n as u32,
                None => 60,
            },
            None => 60,
        };
        let color = match &env.color {
            Some(s) => s.clone(),
            None => string_or(&env.bits, "6bit"),
        };
        let no_log = match &env.no_log {
            Some(s) => same(s.as_str(), "1") || same_ignoring_case(s.as_str(), "true"),
            None => false,
        };
        CliConfig {
            user: string_or(&env.user, "dev"),
            password: string_or(&env.password, "12345678"),
            domain,
            port,
            host: string_or(&env.host, "0.0.0.0"),
            color,
            tile: string_or(&env.tile, "320x24"),
            fps,
            res: string_or(&env.res, "native"),
            mode: string_or(&env.mode, "speed"),
            no_log,
            verbose: false,
            daemon: false,
            quit: false,
            status: false,
            help: false,
        }
    }

    /// Notes an option with its value.
    fn set_value(&mut self, option: CliOption, value: &String)
        ensures
            final(self)@ == old(self)@.with_value(option, value@),
    {
        match option {
            CliOption::User => {
                self.user = value.clone();
            },
            CliOption::Password => {
                self.password = value.clone();
            },
            CliOption::Domain => {
                self.domain = domain_of(value.as_str());
            },
            CliOption::Port => {
                if let Some(n) = parse(value.as_str(), 10, 65535) {
                    self.port = n as u16;
                }
            },
            CliOption::Host => {
                self.host = value.clone();
            },
            CliOption::Color => {
                self.color = value.clone();
            },
            CliOption::Tile => {
                self.tile = value.clone();
            },
            CliOption::Fps => {
                if let Some(n) = parse(value.as_str(), 10, u32::MAX as u64) {
                    self.fps = n as u32;
                }
            },
            CliOption::Res => {
                self.res = value.clone();
            },
            CliOption::Mode => {
                self.mode = value.clone();
            },
            _ => {},
        }
    }

    /// Notes an option without a value.
    fn set_flag(&mut self, option: CliOption)
        ensures
            final(self)@ == old(self)@.with_flag(option),
    {
        match option {
            CliOption::Verbose => {
                self.verbose = true;
            },
            CliOption::Daemon => {
                self.daemon = true;
            },
            CliOption::Quit => {
                self.quit = true;
            },
            CliOption::Status => {
                self.status = true;
            },
            CliOption::NoLog => {
                self.no_log = true;
            },
            CliOption::Help => {
                self.help = true;
            },
            _ => {},
        }
    }
}

/// How the server is to run, as the environment and the command line say. The first argument is the
/// program's name.
pub fn parse_cli_args(env: &CliEnv, args: &Vec<String>) -> (r: CliConfig)
    ensures
        r@ == env.defaults().with_args(texts(args@), 1),
{
    let mut config = CliConfig::from_env(env);
    let ghost all = texts(args@);
    let len: usize = args.len();
    let mut i: usize = 1;
    while i < len
        invariant
            len == args@.len(),
            all == texts(args@),
            config@.with_args(all, i as int) == env.defaults().with_args(all, 1),
        decreases len - i,
    {
        let option = option_of(args[i].as_str());
        assert(all[i as int] == args@[i as int]@);
        if option.takes_value() {
            if i + 1 < len {
                assert(all[i + 1] == args@[i + 1]@);
                config.set_value(option, &args[i + 1]);
                if i + 1 == len - 1 {
                    assert(config@.with_args(all, i + 2) == config@);
                    return config;
                }
                i = i + 2;
            } else {
                return config;
            }
        } else {
            config.set_flag(option);
            i = i + 1;
        }
    }
    config
}

/// What the program is asked to do.
#[derive(Debug, Clone, Copy, PartialEq, Eq, Structural)]
pub enum Command {
    Help,
    Quit,
    Daemon,
    Status,
    Serve,
}

impl CliConfig {
    /// What the program is asked to do. Of several requests the one for help comes first, then the
    /// one to stop, to run in the background and to say how things are.
    pub fn command(&self) -> (r: Command)
        ensures
            r == if self.help {
                Command::Help
            } else if self.quit {
                Command::Quit
            } else if self.daemon {
                Command::Daemon
            } else if self.status {
                Command::Status
            } else {
                Command::Serve
            },
    {
        if self.help {
            Command::Help
        } else if self.quit {
            Command::Quit
        } else if self.daemon {
            Command::Daemon
        } else if self.status {
            Command::Status
        } else {
            Command::Serve
        }
    }

    /// What is logged unless the environment has a filter of its own; nothing at all, whatever it
    /// has, where logging is off.
    pub fn log_filter(&self) -> (r: &'static str)
        ensures
            r@ == if self.no_log {
                "off"@
            } else if self.verbose {
                "mac_rdp_server=debug,ironrdp_server=info,ironrdp=warn"@
            } else {
                "mac_rdp_server=info,ironrdp_server=info,ironrdp=warn"@
            },
    {
        if self.no_log {
            "off"
        } else if self.verbose {
            "mac_rdp_server=debug,ironrdp_server=info,ironrdp=warn"
        } else {
            "mac_rdp_server=info,ironrdp_server=info,ironrdp=warn"
        }
    }

    /// What is to be known of the picture.
    pub fn graphics_env(&self) -> (r: GraphicsEnv)
        ensures
            text_of(r.mode) == Some(self.mode@),
            text_of(r.color) == Some(self.color@),
            text_of(r.tile) == Some(self.tile@),
            r.bits is None,
            r.mask is None,
            r.tile_w is None,
            r.tile_h is None,
    {
        GraphicsEnv {
            mode: Some(self.mode.clone()),
            color: Some(self.color.clone()),
            bits: None,
            mask: None,
            tile: Some(self.tile.clone()),
            tile_w: None,
            tile_h: None,
        }
    }

    /// What is to be known of the display.
    pub fn display_env(&self) -> (r: DisplayEnv)
        ensures
            text_of(r.fps) == Some(decimal(self.fps as int)),
            text_of(r.res) == Some(self.res@),
    {
        DisplayEnv { fps: Some(to_decimal(self.fps as u64)), res: Some(self.res.clone()) }
    }

    /// The arguments with which the server is started in the background.
    pub open spec fn worker_texts(self) -> Seq<Seq<char>> {
        seq!["--worker"@, "-u"@, self.user@, "-p"@, self.password@] + (match self.domain {
            Some(domain) => seq!["-D"@, domain@],
            None => Seq::empty(),
        }) + seq![
            "-P"@,
            decimal(self.port as int),
            "-H"@,
            self.host@,
            "-c"@,
            self.color@,
            "-t"@,
            self.tile@,
            "-f"@,
            decimal(self.fps as int),
            "-r"@,
            self.res@,
            "-m"@,
            self.mode@,
        ] + (if self.no_log {
            seq!["--no-log"@]
        } else {
            Seq::empty()
        })
    }

    /// The arguments with which the server is started in the background.
    pub fn worker_args(&self) -> (r: Vec<String>)
        ensures
            texts(r@) == self.worker_texts(),
    {
        let mut args: Vec<String> = Vec::new();
        args.push("--worker".to_owned());
        args.push("-u".to_owned());
        args.push(self.user.clone());
        args.push("-p".to_owned());
        args.push(self.password.clone());
        let ghost head = seq!["--worker"@, "-u"@, self.user@, "-p"@, self.password@];
        assert(texts(args@) =~= head);
        let ghost domain_part: Seq<Seq<char>> = match &self.domain {
            Some(domain) => seq!["-D"@, domain@],
            None => Seq::empty(),
        };
        if let Some(domain) = &self.domain {
            args.push("-D".to_owned());
            args.push(domain.clone());
        }
        assert(texts(args@) =~= head + domain_part);
        args.push("-P".to_owned());
        args.push(to_decimal(self.port as u64));
        args.push("-H".to_owned());
        args.push(self.host.clone());
        args.push("-c".to_owned());
        args.push(self.color.clone());
        args.push("-t".to_owned());
        args.push(self.tile.clone());
        args.push("-f".to_owned());
        args.push(to_decimal(self.fps as u64));
        args.push("-r".to_owned());
        args.push(self.res.clone());
        args.push("-m".to_owned());
        args.push(self.mode.clone());
        let ghost most = head + domain_part + seq![
            "-P"@,
            decimal(self.port as int),
            "-H"@,
            self.host@,
            "-c"@,
            self.color@,
            "-t"@,
            self.tile@,
            "-f"@,
            decimal(self.fps as int),
            "-r"@,
            self.res@,
            "-m"@,
            self.mode@,
        ];
        assert(texts(args@) =~= most);
        if self.no_log {
            args.push("--no-log".to_owned());
            assert(texts(args@) =~= most + seq!["--no-log"@]);
        } else {
            assert(texts(args@) =~= most + Seq::<Seq<char>>::empty());
        }
        args
    }
}

/// Every option has its names, a short one and longer ones.
pub proof fn lemma_worker_options()
    ensures
        option_named("--worker"@) == CliOption::Unknown,
        option_named("-u"@) == CliOption::User,
        option_named("--user"@) == CliOption::User,
        option_named("--username"@) == CliOption::User,
        option_named("-p"@) == CliOption::Password,
        option_named("--password"@) == CliOption::Password,
        option_named("--pass"@) == CliOption::Password,
        option_named("-D"@) == CliOption::Domain,
        option_named("--domain"@) == CliOption::Domain,
        option_named("-P"@) == CliOption::Port,
        option_named("--port"@) == CliOption::Port,
        option_named("-H"@) == CliOption::Host,
        option_named("--host"@) == CliOption::Host,
        option_named("-c"@) == CliOption::Color,
        option_named("--color"@) == CliOption::Color,
        option_named("--bits"@) == CliOption::Color,
        option_named("-t"@) == CliOption::Tile,
        option_named("--tile"@) == CliOption::Tile,
        option_named("-f"@) == CliOption::Fps,
        option_named("--fps"@) == CliOption::Fps,
        option_named("-r"@) == CliOption::Res,
        option_named("--res"@) == CliOption::Res,
        option_named("--resolution"@) == CliOption::Res,
        option_named("-m"@) == CliOption::Mode,
        option_named("--mode"@) == CliOption::Mode,
        option_named("-v"@) == CliOption::Verbose,
        option_named("--verbose"@) == CliOption::Verbose,
        option_named("--debug"@) == CliOption::Verbose,
        option_named("-d"@) == CliOption::Daemon,
        option_named("--daemon"@) == CliOption::Daemon,
        option_named("start"@) == CliOption::Daemon,
        option_named("-q"@) == CliOption::Quit,
        option_named("--quit"@) == CliOption::Quit,
        option_named("stop"@) == CliOption::Quit,
        option_named("-s"@) == CliOption::Status,
        option_named("--status"@) == CliOption::Status,
        option_named("status"@) == CliOption::Status,
        option_named("-nl"@) == CliOption::NoLog,
        option_named("--no-log"@) == CliOption::NoLog,
        option_named("-h"@) == CliOption::Help,
        option_named("--help"@) == CliOption::Help,
        option_named("help"@) == CliOption::Help,
{
    reveal_strlit("--bits");
    assert("--bits"@.len() == 6 && "--bits"@[1] == '-' && "--bits"@[2] == 'b'
        && "--bits"@[3] == 'i');
    reveal_strlit("--color");
    assert("--color"@.len() == 7 && "--color"@[1] == '-' && "--color"@[2] == 'c'
        && "--color"@[3] == 'o');
    reveal_strlit("--daemon");
    assert("--daemon"@.len() == 8 && "--daemon"@[1] == '-' && "--daemon"@[2] == 'd'
        && "--daemon"@[3] == 'a');
    reveal_strlit("--debug");
    assert("--debug"@.len() == 7 && "--debug"@[1] == '-' && "--debug"@[2] == 'd'
        && "--debug"@[3] == 'e');
    reveal_strlit("--domain");
    assert("--domain"@.len() == 8 && "--domain"@[1] == '-' && "--domain"@[2] == 'd'
        && "--domain"@[3] == 'o');
    reveal_strlit("--fps");
    assert("--fps"@.len() == 5 && "--fps"@[1] == '-' && "--fps"@[2] == 'f'
        && "--fps"@[3] == 'p');
    reveal_strlit("--help");
    assert("--help"@.len() == 6 && "--help"@[1] == '-' && "--help"@[2] == 'h'
        && "--help"@[3] == 'e');
    reveal_strlit("--host");
    assert("--host"@.len() == 6 && "--host"@[1] == '-' && "--host"@[2] == 'h'
        && "--host"@[3] == 'o');
    reveal_strlit("--mode");
    assert("--mode"@.len() == 6 && "--mode"@[1] == '-' && "--mode"@[2] == 'm'
        && "--mode"@[3] == 'o');
    reveal_strlit("--no-log");
    assert("--no-log"@.len() == 8 && "--no-log"@[1] == '-' && "--no-log"@[2] == 'n'
        && "--no-log"@[3] == 'o');
    reveal_strlit("--pass");
    assert("--pass"@.len() == 6 && "--pass"@[1] == '-' && "--pass"@[2] == 'p'
        && "--pass"@[3] == 'a');
    reveal_strlit("--password");
    assert("--password"@.len() == 10 && "--password"@[1] == '-' && "--password"@[2] == 'p'
        && "--password"@[3] == 'a');
    reveal_strlit("--port");
    assert("--port"@.len() == 6 && "--port"@[1] == '-' && "--port"@[2] == 'p'
        && "--port"@[3] == 'o');
    reveal_strlit("--quit");
    assert("--quit"@.len() == 6 && "--quit"@[1] == '-' && "--quit"@[2] == 'q'
        && "--quit"@[3] == 'u');
    reveal_strlit("--res");
    assert("--res"@.len() == 5 && "--res"@[1] == '-' && "--res"@[2] == 'r'
        && "--res"@[3] == 'e');
    reveal_strlit("--resolution");
    assert("--resolution"@.len() == 12 && "--resolution"@[1] == '-' && "--resolution"@[2] == 'r'
        && "--resolution"@[3] == 'e');
    reveal_strlit("--status");
    assert("--status"@.len() == 8 && "--status"@[1] == '-' && "--status"@[2] == 's'
        && "--status"@[3] == 't');
    reveal_strlit("--tile");
    assert("--tile"@.len() == 6 && "--tile"@[1] == '-' && "--tile"@[2] == 't'
        && "--tile"@[3] == 'i');
    reveal_strlit("--user");
    assert("--user"@.len() == 6 && "--user"@[1] == '-' && "--user"@[2] == 'u'
        && "--user"@[3] == 's');
    reveal_strlit("--username");
    assert("--username"@.len() == 10 && "--username"@[1] == '-' && "--username"@[2] == 'u'
        && "--username"@[3] == 's');
    reveal_strlit("--verbose");
    assert("--verbose"@.len() == 9 && "--verbose"@[1] == '-' && "--verbose"@[2] == 'v'
        && "--verbose"@[3] == 'e');
    reveal_strlit("--worker");
    assert("--worker"@.len() == 8 && "--worker"@[1] == '-' && "--worker"@[2] == 'w'
        && "--worker"@[3] == 'o');
    reveal_strlit("-D");
    assert("-D"@.len() == 2 && "-D"@[1] == 'D');
    reveal_strlit("-H");
    assert("-H"@.len() == 2 && "-H"@[1] == 'H');
    reveal_strlit("-P");
    assert("-P"@.len() == 2 && "-P"@[1] == 'P');
    reveal_strlit("-c");
    assert("-c"@.len() == 2 && "-c"@[1] == 'c');
    reveal_strlit("-d");
    assert("-d"@.len() == 2 && "-d"@[1] == 'd');
    reveal_strlit("-f");
    assert("-f"@.len() == 2 && "-f"@[1] == 'f');
    reveal_strlit("-h");
    assert("-h"@.len() == 2 && "-h"@[1] == 'h');
    reveal_strlit("-m");
    assert("-m"@.len() == 2 && "-m"@[1] == 'm');
    reveal_strlit("-nl");
    assert("-nl"@.len() == 3 && "-nl"@[1] == 'n' && "-nl"@[2] == 'l');
    reveal_strlit("-p");
    assert("-p"@.len() == 2 && "-p"@[1] == 'p');
    reveal_strlit("-q");
    assert("-q"@.len() == 2 && "-q"@[1] == 'q');
    reveal_strlit("-r");
    assert("-r"@.len() == 2 && "-r"@[1] == 'r');
    reveal_strlit("-s");
    assert("-s"@.len() == 2 && "-s"@[1] == 's');
    reveal_strlit("-t");
    assert("-t"@.len() == 2 && "-t"@[1] == 't');
    reveal_strlit("-u");
    assert("-u"@.len() == 2 && "-u"@[1] == 'u');
    reveal_strlit("-v");
    assert("-v"@.len() == 2 && "-v"@[1] == 'v');
    reveal_strlit("help");
    assert("help"@.len() == 4 && "help"@[1] == 'e' && "help"@[2] == 'l');
    reveal_strlit("start");
    assert("start"@.len() == 5 && "start"@[1] == 't' && "start"@[2] == 'a');
    reveal_strlit("status");
    assert("status"@.len() == 6 && "status"@[1] == 't' && "status"@[2] == 'a');
    reveal_strlit("stop");
    assert("stop"@.len() == 4 && "stop"@[1] == 't' && "stop"@[2] == 'o');
}

proof fn lemma_value_step(model: CliModel, args: Seq<Seq<char>>, i: int, option: CliOption, value: Seq<char>)
    requires
        0 <= i,
        i + 1 < args.len(),
        option_named(args[i]) == option,
        option.has_value(),
        args[i + 1] == value,
    ensures
        model.with_args(args, i) == model.with_value(option, value).with_args(args, i + 2),
{
}

/// Whether a domain is named as it stands.
pub open spec fn domain_clean(domain: Option<Seq<char>>) -> bool {
    match domain {
        Some(s) => domain_named(s) == Some(s),
        None => true,
    }
}

proof fn lemma_args_keep(model: CliModel, args: Seq<Seq<char>>, i: int)
    requires
        domain_clean(model.domain),
    ensures
        domain_clean(model.with_args(args, i).domain),
        model.no_log ==> model.with_args(args, i).no_log,
    decreases args.len() - i,
{
    if i < args.len() {
        let option = option_named(args[i]);
        if option.has_value() {
            if i + 1 < args.len() {
                lemma_trimmed_twice(args[i + 1]);
                lemma_args_keep(model.with_value(option, args[i + 1]), args, i + 2);
            }
        } else {
            lemma_args_keep(model.with_flag(option), args, i + 1);
        }
    }
}

/// The server in the background runs as it was asked to: with the arguments it is started with, and
/// in the same environment, it comes to the same configuration, but that it is no longer asked to go
/// to the background.
///
/// This is said of a configuration that has a domain where the environment has one.
pub proof fn lemma_worker_runs_the_same(
    env: CliEnv,
    args: Seq<Seq<char>>,
    config: CliConfig,
    program: Seq<char>,
)
    requires
        config@ == env.defaults().with_args(args, 1),
        config.domain is None ==> env.defaults().domain is None,
    ensures
        env.defaults().with_args(seq![program] + config.worker_texts(), 1) == (CliModel {
            verbose: false,
            daemon: false,
            quit: false,
            status: false,
            help: false,
            ..config@
        }),
{
    let start = env.defaults();
    if let Some(s) = env.domain {
        lemma_trimmed_twice(s@);
    }
    lemma_args_keep(start, args, 1);
    lemma_worker_options();
    lemma_decimal_parses(config.port as int, u16::MAX as int);
    lemma_decimal_parses(config.fps as int, u32::MAX as int);
    let all = seq![program] + config.worker_texts();
    assert(all[1] == "--worker"@);
    let m1 = start.with_value(CliOption::User, config.user@);
    let m2 = m1.with_value(CliOption::Password, config.password@);
    lemma_value_step(start, all, 2, CliOption::User, config.user@);
    lemma_value_step(m1, all, 4, CliOption::Password, config.password@);
    let d: int = if config.domain is Some {
        8
    } else {
        6
    };
    let m3 = if config.domain is Some {
        m2.with_value(CliOption::Domain, config.domain->0@)
    } else {
        m2
    };
    if config.domain is Some {
        lemma_value_step(m2, all, 6, CliOption::Domain, config.domain->0@);
    }
    assert(all[d] == "-P"@);
    assert(all[d + 1] == decimal(config.port as int));
    assert(all[d + 2] == "-H"@);
    assert(all[d + 3] == config.host@);
    assert(all[d + 4] == "-c"@);
    assert(all[d + 5] == config.color@);
    assert(all[d + 6] == "-t"@);
    assert(all[d + 7] == config.tile@);
    assert(all[d + 8] == "-f"@);
    assert(all[d + 9] == decimal(config.fps as int));
    assert(all[d + 10] == "-r"@);
    assert(all[d + 11] == config.res@);
    assert(all[d + 12] == "-m"@);
    assert(all[d + 13] == config.mode@);
    let m4 = m3.with_value(CliOption::Port, decimal(config.port as int));
    let m5 = m4.with_value(CliOption::Host, config.host@);
    let m6 = m5.with_value(CliOption::Color, config.color@);
    let m7 = m6.with_value(CliOption::Tile, config.tile@);
    let m8 = m7.with_value(CliOption::Fps, decimal(config.fps as int));
    let m9 = m8.with_value(CliOption::Res, config.res@);
    let m10 = m9.with_value(CliOption::Mode, config.mode@);
    lemma_value_step(m3, all, d, CliOption::Port, decimal(config.port as int));
    lemma_value_step(m4, all, d + 2, CliOption::Host, config.host@);
    lemma_value_step(m5, all, d + 4, CliOption::Color, config.color@);
    lemma_value_step(m6, all, d + 6, CliOption::Tile, config.tile@);
    lemma_value_step(m7, all, d + 8, CliOption::Fps, decimal(config.fps as int));
    lemma_value_step(m8, all, d + 10, CliOption::Res, config.res@);
    lemma_value_step(m9, all, d + 12, CliOption::Mode, config.mode@);
    if config.no_log {
        assert(all[d + 14] == "--no-log"@);
        assert(all.len() == d + 15);
        let m11 = m10.with_flag(CliOption::NoLog);
        assert(m11.with_args(all, d + 15) == m11);
        assert(m10.with_args(all, d + 14) == m11);
    } else {
        assert(all.len() == d + 14);
        assert(m10.with_args(all, d + 14) == m10);
    }
}

/// Whether the arguments from number `i` on are options that all have their values.
pub open spec fn all_given(args: Seq<Seq<char>>, i: int) -> bool
    decreases args.len() - i,
{
    if i >= args.len() {
        i == args.len()
    } else if option_named(args[i]).has_value() {
        i + 1 < args.len() && all_given(args, i + 2)
    } else {
        all_given(args, i + 1)
    }
}

/// The last word counts: an option at the end of the command line takes effect whatever stands before it,
/// and what stands before it has its effect all the same.
pub proof fn lemma_last_word(model: CliModel, args: Seq<Seq<char>>, i: int, name: Seq<char>, value: Seq<char>)
    requires
        0 <= i,
        all_given(args, i),
    ensures
        option_named(name).has_value() ==> model.with_args(args + seq![name, value], i)
            == model.with_args(args, i).with_value(option_named(name), value),
        !option_named(name).has_value() ==> model.with_args(args + seq![name], i) == model.with_args(
            args,
            i,
        ).with_flag(option_named(name)),
        option_named(name).has_value() ==> model.with_args(args + seq![name], i) == model.with_args(
            args,
            i,
        ),
    decreases args.len() - i,
{
    let both = args + seq![name, value];
    let one = args + seq![name];
    if i >= args.len() {
        assert(both[i] == name && both[i + 1] == value);
        assert(one[i] == name);
        assert(model.with_value(option_named(name), value).with_args(both, i + 2) == model.with_value(
            option_named(name),
            value,
        ));
        assert(model.with_flag(option_named(name)).with_args(one, i + 1) == model.with_flag(
            option_named(name),
        ));
    } else {
        let option = option_named(args[i]);
        assert(both[i] == args[i] && one[i] == args[i]);
        if option.has_value() {
            assert(i + 1 < args.len());
            assert(both[i + 1] == args[i + 1] && one[i + 1] == args[i + 1]);
            lemma_last_word(model.with_value(option, args[i + 1]), args, i + 2, name, value);
        } else {
            lemma_last_word(model.with_flag(option), args, i + 1, name, value);
        }
    }
}

/// An option with a value sets what it is called by and nothing else; a number is what its digits spell.
pub proof fn lemma_value_given(model: CliModel, value: Seq<char>, n: int)
    ensures
        model.with_value(CliOption::User, value) == (CliModel { user: value, ..model }),
        model.with_value(CliOption::Password, value) == (CliModel { password: value, ..model }),
        model.with_value(CliOption::Host, value) == (CliModel { host: value, ..model }),
        model.with_value(CliOption::Color, value) == (CliModel { color: value, ..model }),
        model.with_value(CliOption::Tile, value) == (CliModel { tile: value, ..model }),
        model.with_value(CliOption::Res, value) == (CliModel { res: value, ..model }),
        model.with_value(CliOption::Mode, value) == (CliModel { mode: value, ..model }),
        0 <= n <= 65535 ==> model.with_value(CliOption::Port, decimal(n)) == (CliModel {
            port: n as u16,
            ..model
        }),
        0 <= n <= u32::MAX ==> model.with_value(CliOption::Fps, decimal(n)) == (CliModel {
            fps: n as u32,
            ..model
        }),
        n > 65535 ==> model.with_value(CliOption::Port, decimal(n)) == model,
        blank(value) ==> model.with_value(CliOption::Domain, value) == (CliModel {
            domain: None,
            ..model
        }),
        value.len() > 0 && !white(value[0]) && !white(value.last()) ==> model.with_value(
            CliOption::Domain,
            value,
        ) == (CliModel { domain: Some(value), ..model }),
{
    if 0 <= n {
        lemma_decimal_parses(n, n);
        if n <= 65535 {
            lemma_decimal_parses(n, 65535);
        }
        if n <= u32::MAX {
            lemma_decimal_parses(n, u32::MAX as int);
        }
    }
    if blank(value) {
        let (front, back) = lemma_trimmed_between(value);
        let rest = trimmed(value);
        if rest.len() > 0 {
            assert(value[front.len() as int] == rest[0]);
        }
    }
    if value.len() > 0 && !white(value[0]) && !white(value.last()) {
        lemma_nothing_to_trim(value);
    }
}

/// An option without a value switches on what it is called by and nothing else.
pub proof fn lemma_flag_given(model: CliModel)
    ensures
        model.with_flag(CliOption::Verbose) == (CliModel { verbose: true, ..model }),
        model.with_flag(CliOption::Daemon) == (CliModel { daemon: true, ..model }),
        model.with_flag(CliOption::Quit) == (CliModel { quit: true, ..model }),
        model.with_flag(CliOption::Status) == (CliModel { status: true, ..model }),
        model.with_flag(CliOption::NoLog) == (CliModel { no_log: true, ..model }),
        model.with_flag(CliOption::Help) == (CliModel { help: true, ..model }),
        model.with_flag(CliOption::Unknown) == model,
{
}

/// Where nothing is said, the server listens on port 3389 of every address and lets the user `dev` in, and
/// what the environment says counts where the command line says nothing.
pub proof fn lemma_defaults(env: CliEnv, n: int)
    ensures
        env.port is None ==> env.defaults().port == 3389,
        env.fps is None ==> env.defaults().fps == 60,
        env.user is None ==> env.defaults().user == "dev"@,
        env.password is None ==> env.defaults().password == "12345678"@,
        env.host is None ==> env.defaults().host == "0.0.0.0"@,
        env.domain is None ==> env.defaults().domain is None,
        env.color is None && env.bits is None ==> env.defaults().color == "6bit"@,
        env.tile is None ==> env.defaults().tile == "320x24"@,
        env.res is None ==> env.defaults().res == "native"@,
        env.user is Some ==> env.defaults().user == env.user->0@,
        env.password is Some ==> env.defaults().password == env.password->0@,
        env.host is Some ==> env.defaults().host == env.host->0@,
        env.tile is Some ==> env.defaults().tile == env.tile->0@,
        env.res is Some ==> env.defaults().res == env.res->0@,
        env.color is Some ==> env.defaults().color == env.color->0@,
        0 <= n <= 65535 && env.port is Some && env.port->0@ == decimal(n) ==> env.defaults().port == n,
        0 <= n <= u32::MAX && env.fps is Some && env.fps->0@ == decimal(n) ==> env.defaults().fps == n,
        env.no_log is None ==> !env.defaults().no_log,
        !env.defaults().verbose && !env.defaults().daemon && !env.defaults().quit
            && !env.defaults().status && !env.defaults().help,
{
    if 0 <= n <= 65535 {
        lemma_decimal_parses(n, 65535);
    }
    if 0 <= n <= u32::MAX {
        lemma_decimal_parses(n, u32::MAX as int);
    }
}

} // verus!
