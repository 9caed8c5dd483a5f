//! Settings: the command line, the config file's values, and how the two
//! combine (flags win over the file), with the startup checks on the result.
//!
//! Reading the config file is left to the program around the library; it
//! hands over the values as a `Config`.

use vstd::prelude::*;

use crate::text::{
    chars_eq_str, chars_of, copy_opt, opt_string_view, parse_u64, parsed_u64, string_of,
};

verus! {

// ---------------------------------------------------------------------------
// The config file's values
// ---------------------------------------------------------------------------

/// The starter config `narratarr --init` writes: a dry run against
/// Audiobookshelf and Listenarr, with placeholder secrets to fill in.
pub const EXAMPLE: &'static str = "# narratarr configuration. Every setting has a command-line flag that wins
# over this file.

[general]
interval = \"6h\"          # reconcile cadence; comment out to run once
language = \"en\"          # preferred audiobook language
apply = false            # dry-run until you're ready
# auto_search = false    # ask Listenarr to search immediately on add
# limit = 0              # max books per cycle; 0 = all
state_file = \"/config/narratarr.db\"
report_file = \"/config/review.md\"
overrides_file = \"/config/overrides.txt\"
# books_dir = \"/books\"   # Calibre .opf directory, used when [audiobookshelf] is absent

[audiobookshelf]
url = \"http://audiobookshelf:80\"     # compose service names, not host names
token = \"CHANGEME\"       # ABS: user icon -> Settings -> Users -> API token
library = \"Books\"        # the EBOOK library to mirror

[listenarr]
url = \"http://listenarr:4545\"
api_key = \"CHANGEME\"     # Listenarr: Settings -> General -> API key
";

/// The `[general]` table.
pub struct GeneralConfig {
    /// Reconcile cadence (`90s`, `30m`, `6h`, `1d`); unset runs one cycle.
    pub interval: Option<String>,
    /// Preferred audiobook language.
    pub language: String,
    /// Make changes in Listenarr; a dry run otherwise.
    pub apply: bool,
    /// Ask Listenarr to search immediately on add.
    pub auto_search: bool,
    /// Max books per cycle; 0 = all.
    pub limit: usize,
    pub state_file: Option<String>,
    pub report_file: Option<String>,
    pub overrides_file: Option<String>,
    pub books_dir: Option<String>,
}

/// The `[audiobookshelf]` table.
pub struct AbsConfig {
    pub url: String,
    pub token: String,
    pub library: String,
}

/// The `[listenarr]` table.
pub struct ListenarrConfig {
    pub url: String,
    pub api_key: String,
}

/// A config file.
pub struct Config {
    pub general: GeneralConfig,
    pub audiobookshelf: Option<AbsConfig>,
    pub listenarr: Option<ListenarrConfig>,
}

impl GeneralConfig {
    /// What an empty `[general]` table means: English, a dry run, no limit,
    /// nothing else set.
    pub open spec fn is_default(&self) -> bool {
        &&& self.interval is None
        &&& self.language@ == "en"@
        &&& !self.apply
        &&& !self.auto_search
        &&& self.limit == 0
        &&& self.state_file is None
        &&& self.report_file is None
        &&& self.overrides_file is None
        &&& self.books_dir is None
    }
}

impl Default for GeneralConfig {
    fn default() -> (g: Self)
        ensures
            g.is_default(),
    {
        GeneralConfig {
            interval: None,
            language: "en".to_owned(),
            apply: false,
            auto_search: false,
            limit: 0,
            state_file: None,
            report_file: None,
            overrides_file: None,
            books_dir: None,
        }
    }
}

impl Config {
    /// The settings when there is no config file.
    pub fn defaults() -> (c: Self)
        ensures
            c.general.is_default(),
            c.audiobookshelf is None,
            c.listenarr is None,
    {
        Config { general: GeneralConfig::default(), audiobookshelf: None, listenarr: None }
    }
}

// ---------------------------------------------------------------------------
// The command line
// ---------------------------------------------------------------------------

/// The command line's flags.
pub struct CliArgs {
    pub books_dir: Option<String>,
    pub limit: Option<usize>,
    pub verbose: bool,
    pub lang: Option<String>,
    pub config_path: Option<String>,
    pub init: bool,
    pub state_path: Option<String>,
    pub listenarr_url: Option<String>,
    pub listenarr_key: Option<String>,
    pub apply: bool,
    pub auto_search: bool,
    pub abs_url: Option<String>,
    pub abs_token: Option<String>,
    pub abs_library: Option<String>,
    pub interval: Option<String>,
    pub report_path: Option<String>,
    pub overrides_path: Option<String>,
}

/// The command line's flags as plain values.
pub struct CliView {
    pub books_dir: Option<Seq<char>>,
    pub limit: Option<usize>,
    pub verbose: bool,
    pub lang: Option<Seq<char>>,
    pub config_path: Option<Seq<char>>,
    pub init: bool,
    pub state_path: Option<Seq<char>>,
    pub listenarr_url: Option<Seq<char>>,
    pub listenarr_key: Option<Seq<char>>,
    pub apply: bool,
    pub auto_search: bool,
    pub abs_url: Option<Seq<char>>,
    pub abs_token: Option<Seq<char>>,
    pub abs_library: Option<Seq<char>>,
    pub interval: Option<Seq<char>>,
    pub report_path: Option<Seq<char>>,
    pub overrides_path: Option<Seq<char>>,
}

pub open spec fn cli_view(c: CliArgs) -> CliView {
    CliView {
        books_dir: opt_string_view(c.books_dir),
        limit: c.limit,
        verbose: c.verbose,
        lang: opt_string_view(c.lang),
        config_path: opt_string_view(c.config_path),
        init: c.init,
        state_path: opt_string_view(c.state_path),
        listenarr_url: opt_string_view(c.listenarr_url),
        listenarr_key: opt_string_view(c.listenarr_key),
        apply: c.apply,
        auto_search: c.auto_search,
        abs_url: opt_string_view(c.abs_url),
        abs_token: opt_string_view(c.abs_token),
        abs_library: opt_string_view(c.abs_library),
        interval: opt_string_view(c.interval),
        report_path: opt_string_view(c.report_path),
        overrides_path: opt_string_view(c.overrides_path),
    }
}

/// No flag given.
pub open spec fn no_flags() -> CliView {
    CliView {
        books_dir: None,
        limit: None,
        verbose: false,
        lang: None,
        config_path: None,
        init: false,
        state_path: None,
        listenarr_url: None,
        listenarr_key: None,
        apply: false,
        auto_search: false,
        abs_url: None,
        abs_token: None,
        abs_library: None,
        interval: None,
        report_path: None,
        overrides_path: None,
    }
}

/// What `str::parse::<usize>` accepts.
pub open spec fn parsed_usize(s: Seq<char>) -> Option<usize> {
    match parsed_u64(s) {
        Some(n) => if n <= usize::MAX {
            Some(n as usize)
        } else {
            None
        },
        None => None,
    }
}

/// The flags after reading `args` from position `i` on, starting from `v`.
/// A flag that takes a value takes the next argument (none at the end);
/// any other argument is the books directory.
pub open spec fn flags_from(args: Seq<Seq<char>>, i: int, v: CliView) -> CliView
    decreases args.len() - i,
{
    if i < 0 || i >= args.len() {
        v
    } else {
        let a = args[i];
        let has_next = i + 1 < args.len();
        let next = if has_next {
            Some(args[i + 1])
        } else {
            None
        };
        let after = if has_next {
            i + 2
        } else {
            i + 1
        };
        if a == "--limit"@ {
            flags_from(
                args,
                after,
                CliView {
                    limit: match next {
                        Some(n) => parsed_usize(n),
                        None => None,
                    },
                    ..v
                },
            )
        } else if a == "--verbose"@ {
            flags_from(args, i + 1, CliView { verbose: true, ..v })
        } else if a == "--lang"@ {
            flags_from(args, after, CliView { lang: next, ..v })
        } else if a == "--config"@ {
            flags_from(args, after, CliView { config_path: next, ..v })
        } else if a == "--init"@ {
            flags_from(args, i + 1, CliView { init: true, ..v })
        } else if a == "--state"@ {
            flags_from(args, after, CliView { state_path: next, ..v })
        } else if a == "--listenarr"@ {
            flags_from(args, after, CliView { listenarr_url: next, ..v })
        } else if a == "--listenarr-key"@ {
            flags_from(args, after, CliView { listenarr_key: next, ..v })
        } else if a == "--abs"@ {
            flags_from(args, after, CliView { abs_url: next, ..v })
        } else if a == "--abs-token"@ {
            flags_from(args, after, CliView { abs_token: next, ..v })
        } else if a == "--abs-library"@ {
            flags_from(args, after, CliView { abs_library: next, ..v })
        } else if a == "--apply"@ {
            flags_from(args, i + 1, CliView { apply: true, ..v })
        } else if a == "--auto-search"@ {
            flags_from(args, i + 1, CliView { auto_search: true, ..v })
        } else if a == "--interval"@ {
            flags_from(args, after, CliView { interval: next, ..v })
        } else if a == "--report"@ {
            flags_from(args, after, CliView { report_path: next, ..v })
        } else if a == "--overrides"@ {
            flags_from(args, after, CliView { overrides_path: next, ..v })
        } else {
            flags_from(args, i + 1, CliView { books_dir: Some(a), ..v })
        }
    }
}

pub open spec fn args_view(args: Seq<String>) -> Seq<Seq<char>> {
    args.map_values(|a: String| a@)
}

fn parse_usize(s: &str) -> (r: Option<usize>)
    ensures
        r == parsed_usize(s@),
{
    let v = chars_of(s);
    match parse_u64(&v) {
        Some(n) => if n as u128 <= usize::MAX as u128 {
            Some(n as usize)
        } else {
            None
        },
        None => None,
    }
}

fn arg_copy(args: &Vec<String>, i: usize) -> (r: Option<String>)
    ensures
        opt_string_view(r) == if i < args@.len() {
            Some(args@[i as int]@)
        } else {
            None::<Seq<char>>
        },
{
    if i < args.len() {
        Some(args[i].as_str().to_owned())
    } else {
        None
    }
}

/// Reads the command line (the arguments after the program's name).
pub fn parse_args(args: &Vec<String>) -> (c: CliArgs)
    ensures
        cli_view(c) == flags_from(args_view(args@), 0, no_flags()),
{
    let ghost av = args_view(args@);
    let mut c = CliArgs {
        books_dir: None,
        limit: None,
        verbose: false,
        lang: None,
        config_path: None,
        init: false,
        state_path: None,
        listenarr_url: None,
        listenarr_key: None,
        apply: false,
        auto_search: false,
        abs_url: None,
        abs_token: None,
        abs_library: None,
        interval: None,
        report_path: None,
        overrides_path: None,
    };
    proof {
        assert(cli_view(c) == no_flags());
    }
    let n = args.len();
    let mut i: usize = 0;
    while i < n
        invariant
            i <= n == args@.len(),
            av == args_view(args@),
            flags_from(av, 0, no_flags()) == flags_from(av, i as int, cli_view(c)),
        decreases n - i,
    {
        let a = chars_of(args[i].as_str());
        proof {
            assert(av[i as int] == a@);
            if i + 1 < n {
                assert(av[i + 1] == args@[i + 1]@);
            }
        }
        let next = arg_copy(args, i + 1);
        let after = if i + 1 < n {
            i + 2
        } else {
            i + 1
        };
        if chars_eq_str(&a, "--limit") {
            c.limit = match &next {
                Some(v) => parse_usize(v.as_str()),
                None => None,
            };
            i = after;
        } else if chars_eq_str(&a, "--verbose") {
            c.verbose = true;
            i = i + 1;
        } else if chars_eq_str(&a, "--lang") {
            c.lang = next;
            i = after;
        } else if chars_eq_str(&a, "--config") {
            c.config_path = next;
            i = after;
        } else if chars_eq_str(&a, "--init") {
            c.init = true;
            i = i + 1;
        } else if chars_eq_str(&a, "--state") {
            c.state_path = next;
            i = after;
        } else if chars_eq_str(&a, "--listenarr") {
            c.listenarr_url = next;
            i = after;
        } else if chars_eq_str(&a, "--listenarr-key") {
            c.listenarr_key = next;
            i = after;
        } else if chars_eq_str(&a, "--abs") {
            c.abs_url = next;
            i = after;
        } else if chars_eq_str(&a, "--abs-token") {
            c.abs_token = next;
            i = after;
        } else if chars_eq_str(&a, "--abs-library") {
            c.abs_library = next;
            i = after;
        } else if chars_eq_str(&a, "--apply") {
            c.apply = true;
            i = i + 1;
        } else if chars_eq_str(&a, "--auto-search") {
            c.auto_search = true;
            i = i + 1;
        } else if chars_eq_str(&a, "--interval") {
            c.interval = next;
            i = after;
        } else if chars_eq_str(&a, "--report") {
            c.report_path = next;
            i = after;
        } else if chars_eq_str(&a, "--overrides") {
            c.overrides_path = next;
            i = after;
        } else {
            c.books_dir = Some(string_of(&a));
            i = i + 1;
        }
    }
    c
}

// ---------------------------------------------------------------------------
// Combining the two
// ---------------------------------------------------------------------------

/// The settings a run works with.
pub struct Settings {
    pub books_dir: Option<String>,
    /// Max books per cycle (`usize::MAX`: all).
    pub limit: usize,
    pub verbose: bool,
    pub lang: String,
    pub apply: bool,
    pub auto_search: bool,
    pub interval: Option<String>,
    pub state_path: Option<String>,
    pub report_path: Option<String>,
    pub overrides_path: Option<String>,
    pub abs_url: Option<String>,
    pub abs_token: Option<String>,
    pub abs_library: Option<String>,
    pub listenarr_url: Option<String>,
    pub listenarr_key: Option<String>,
}

pub open spec fn first_of(a: Option<Seq<char>>, b: Option<Seq<char>>) -> Option<Seq<char>> {
    match a {
        Some(x) => Some(x),
        None => b,
    }
}

/// The limit: the flag's, else the file's unless it is 0, else no limit.
pub open spec fn effective_limit(flag: Option<usize>, file: usize) -> usize {
    match flag {
        Some(n) => n,
        None => if file == 0 {
            usize::MAX
        } else {
            file
        },
    }
}

/// `s` combines the flags `c` and the config file `f`: each flag wins
/// over the file's value; the Audiobookshelf (Listenarr) table is used only
/// when neither its URL nor its secret was given as a flag, and then the
/// library flag still wins over the table's library.
pub open spec fn is_combined(s: Settings, c: CliView, f: Config) -> bool {
    &&& opt_string_view(s.books_dir) == first_of(c.books_dir, opt_string_view(f.general.books_dir))
    &&& s.limit == effective_limit(c.limit, f.general.limit)
    &&& s.verbose == c.verbose
    &&& s.lang@ == match c.lang {
        Some(l) => l,
        None => f.general.language@,
    }
    &&& s.apply == (c.apply || f.general.apply)
    &&& s.auto_search == (c.auto_search || f.general.auto_search)
    &&& opt_string_view(s.interval) == first_of(c.interval, opt_string_view(f.general.interval))
    &&& opt_string_view(s.state_path) == first_of(c.state_path, opt_string_view(f.general.state_file))
    &&& opt_string_view(s.report_path) == first_of(c.report_path, opt_string_view(f.general.report_file))
    &&& opt_string_view(s.overrides_path) == first_of(
        c.overrides_path,
        opt_string_view(f.general.overrides_file),
    )
    &&& if c.abs_url is None && c.abs_token is None && f.audiobookshelf is Some {
        let a = f.audiobookshelf->0;
        &&& opt_string_view(s.abs_url) == Some(a.url@)
        &&& opt_string_view(s.abs_token) == Some(a.token@)
        &&& opt_string_view(s.abs_library) == first_of(c.abs_library, Some(a.library@))
    } else {
        &&& opt_string_view(s.abs_url) == c.abs_url
        &&& opt_string_view(s.abs_token) == c.abs_token
        &&& opt_string_view(s.abs_library) == c.abs_library
    }
    &&& if c.listenarr_url is None && c.listenarr_key is None && f.listenarr is Some {
        let l = f.listenarr->0;
        &&& opt_string_view(s.listenarr_url) == Some(l.url@)
        &&& opt_string_view(s.listenarr_key) == Some(l.api_key@)
    } else {
        &&& opt_string_view(s.listenarr_url) == c.listenarr_url
        &&& opt_string_view(s.listenarr_key) == c.listenarr_key
    }
}

fn either(a: &Option<String>, b: &Option<String>) -> (r: Option<String>)
    ensures
        opt_string_view(r) == first_of(opt_string_view(*a), opt_string_view(*b)),
{
    match a {
        Some(x) => Some(x.as_str().to_owned()),
        None => copy_opt(b),
    }
}

/// Config file first, command-line flags override.
pub fn combine(c: &CliArgs, f: &Config) -> (s: Settings)
    ensures
        is_combined(s, cli_view(*c), *f),
{
    let limit = match c.limit {
        Some(n) => n,
        None => if f.general.limit == 0 {
            usize::MAX
        } else {
            f.general.limit
        },
    };
    let lang = match &c.lang {
        Some(l) => l.as_str().to_owned(),
        None => f.general.language.as_str().to_owned(),
    };
    let (abs_url, abs_token, abs_library) = match &f.audiobookshelf {
        Some(a) => if c.abs_url.is_none() && c.abs_token.is_none() {
            (
                Some(a.url.as_str().to_owned()),
                Some(a.token.as_str().to_owned()),
                match &c.abs_library {
                    Some(l) => Some(l.as_str().to_owned()),
                    None => Some(a.library.as_str().to_owned()),
                },
            )
        } else {
            (copy_opt(&c.abs_url), copy_opt(&c.abs_token), copy_opt(&c.abs_library))
        },
        None => (copy_opt(&c.abs_url), copy_opt(&c.abs_token), copy_opt(&c.abs_library)),
    };
    let (listenarr_url, listenarr_key) = match &f.listenarr {
        Some(l) => if c.listenarr_url.is_none() && c.listenarr_key.is_none() {
            (Some(l.url.as_str().to_owned()), Some(l.api_key.as_str().to_owned()))
        } else {
            (copy_opt(&c.listenarr_url), copy_opt(&c.listenarr_key))
        },
        None => (copy_opt(&c.listenarr_url), copy_opt(&c.listenarr_key)),
    };
    Settings {
        books_dir: either(&c.books_dir, &f.general.books_dir),
        limit,
        verbose: c.verbose,
        lang,
        apply: c.apply || f.general.apply,
        auto_search: c.auto_search || f.general.auto_search,
        interval: either(&c.interval, &f.general.interval),
        state_path: either(&c.state_path, &f.general.state_file),
        report_path: either(&c.report_path, &f.general.report_file),
        overrides_path: either(&c.overrides_path, &f.general.overrides_file),
        abs_url,
        abs_token,
        abs_library,
        listenarr_url,
        listenarr_key,
    }
}

// ---------------------------------------------------------------------------
// Startup checks
// ---------------------------------------------------------------------------

/// What stops a run before its first cycle.
#[derive(Debug, Clone, Copy, PartialEq, Eq, Structural)]
pub enum SetupError {
    /// The config still holds the example's `CHANGEME` secrets.
    Placeholder,
    /// Only one of the Audiobookshelf URL and token is set.
    AbsIncomplete,
    /// Neither Audiobookshelf nor a books directory is configured.
    NoSource,
    /// Only one of the Listenarr URL and API key is set.
    ListenarrUnpaired,
}

impl SetupError {
    pub open spec fn text(self) -> Seq<char> {
        match self {
            SetupError::Placeholder => "config still contains CHANGEME placeholders — edit your narratarr.toml"@,
            SetupError::AbsIncomplete => "audiobookshelf needs both url and token"@,
            SetupError::NoSource => "no book source configured.\n  quick start: narratarr --init   (writes narratarr.toml to edit)\n  or: narratarr <books_dir> [flags]\n  or: narratarr --abs <url> --abs-token <token> --abs-library <name> [flags]"@,
            SetupError::ListenarrUnpaired => "--listenarr and --listenarr-key must be given together"@,
        }
    }

    /// The message shown for the error.
    pub fn message(self) -> (m: &'static str)
        ensures
            m@ == self.text(),
    {
        match self {
            SetupError::Placeholder => "config still contains CHANGEME placeholders — edit your narratarr.toml",
            SetupError::AbsIncomplete => "audiobookshelf needs both url and token",
            SetupError::NoSource => "no book source configured.\n  quick start: narratarr --init   (writes narratarr.toml to edit)\n  or: narratarr <books_dir> [flags]\n  or: narratarr --abs <url> --abs-token <token> --abs-library <name> [flags]",
            SetupError::ListenarrUnpaired => "--listenarr and --listenarr-key must be given together",
        }
    }
}

pub open spec fn is_placeholder(o: Option<Seq<char>>) -> bool {
    o == Some("CHANGEME"@)
}

/// The first problem with the book source, in the order they are checked:
/// a placeholder secret, half an Audiobookshelf setup, no source at all.
pub open spec fn source_problem_of(s: Settings) -> Option<SetupError> {
    let abs_mode = s.abs_url is Some || s.abs_token is Some;
    if is_placeholder(opt_string_view(s.abs_token)) || is_placeholder(
        opt_string_view(s.listenarr_key),
    ) {
        Some(SetupError::Placeholder)
    } else if abs_mode && (s.abs_url is None || s.abs_token is None) {
        Some(SetupError::AbsIncomplete)
    } else if !abs_mode && s.books_dir is None {
        Some(SetupError::NoSource)
    } else {
        None
    }
}

fn is_changeme(o: &Option<String>) -> (b: bool)
    ensures
        b == is_placeholder(opt_string_view(*o)),
{
    match o {
        Some(v) => {
            let c = chars_of(v.as_str());
            chars_eq_str(&c, "CHANGEME")
        },
        None => false,
    }
}

/// The first problem with the book source, if any.
pub fn source_problem(s: &Settings) -> (r: Option<SetupError>)
    ensures
        r == source_problem_of(*s),
{
    let abs_mode = s.abs_url.is_some() || s.abs_token.is_some();
    if is_changeme(&s.abs_token) || is_changeme(&s.listenarr_key) {
        Some(SetupError::Placeholder)
    } else if abs_mode && (s.abs_url.is_none() || s.abs_token.is_none()) {
        Some(SetupError::AbsIncomplete)
    } else if !abs_mode && s.books_dir.is_none() {
        Some(SetupError::NoSource)
    } else {
        None
    }
}

/// Listenarr is configured by both its URL and its API key, or by neither.
pub fn listenarr_problem(s: &Settings) -> (r: Option<SetupError>)
    ensures
        r == if (s.listenarr_url is Some) != (s.listenarr_key is Some) {
            Some(SetupError::ListenarrUnpaired)
        } else {
            None
        },
{
    if s.listenarr_url.is_some() != s.listenarr_key.is_some() {
        Some(SetupError::ListenarrUnpaired)
    } else {
        None
    }
}

/// Nothing happens without `apply`: with the default `[general]` table
/// and no `--apply` flag, a run is a dry run.
pub proof fn lemma_default_is_dry_run(s: Settings, c: CliView, f: Config)
    requires
        is_combined(s, c, f),
        f.general.is_default(),
        !c.apply,
    ensures
        !s.apply,
{
}

} // verus!
