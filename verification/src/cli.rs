//! The command line: subcommands, server options and the session pool size.
use vstd::prelude::*;

use crate::text::{parse_usize, parse_usize_spec, str_eq, string_views};

verus! {

/// Where inference runs.
#[derive(Debug, Clone, Copy, PartialEq, Eq, Structural)]
pub enum ExecutionProvider {
    Cpu,
    Npu,
}

/// Options of the embedding server.
#[derive(Debug, Clone, PartialEq, Eq)]
pub struct ServeArgs {
    pub provider: ExecutionProvider,
    pub port: String,
    /// Inference sessions per model; 0 asks for the provider's default.
    pub pool_size: usize,
}

/// What the command line asks for.
#[derive(Debug, Clone, PartialEq, Eq)]
pub enum Command {
    /// Start the embedding server.
    Serve(ServeArgs),
    /// Download the named catalog model.
    Download(String),
    /// List the models that can be downloaded.
    ListCatalog,
    /// List the installed models.
    ListInstalled,
    /// Show the usage text and stop (`--help`, `-h`).
    Help,
    /// An option that is not known; show the usage text and fail.
    UnknownOption(String),
}

/// A server option given without a proper value.
#[derive(Debug, Clone, Copy, PartialEq, Eq, Structural)]
pub enum ArgError {
    MissingPortValue,
    MissingPoolSizeValue,
    InvalidPoolSize,
    ZeroPoolSize,
}

impl ArgError {
    /// The error's message.
    pub fn message(&self) -> (m: String)
        ensures
            m@ == match self {
                ArgError::MissingPortValue => "--port requires a value"@,
                ArgError::MissingPoolSizeValue => "--pool-size requires a value"@,
                ArgError::InvalidPoolSize => "--pool-size must be a positive integer"@,
                ArgError::ZeroPoolSize => "--pool-size must be >= 1"@,
            },
    {
        match self {
            ArgError::MissingPortValue => "--port requires a value".to_owned(),
            ArgError::MissingPoolSizeValue => "--pool-size requires a value".to_owned(),
            ArgError::InvalidPoolSize => "--pool-size must be a positive integer".to_owned(),
            ArgError::ZeroPoolSize => "--pool-size must be >= 1".to_owned(),
        }
    }
}

/// The outcome of parsing, with every text taken by its characters.
pub enum ParsedArgs {
    Serve { provider: ExecutionProvider, port: Seq<char>, pool_size: usize },
    Download(Seq<char>),
    ListCatalog,
    ListInstalled,
    Help,
    UnknownOption(Seq<char>),
    Failed(ArgError),
}

/// The outcome that a parse result stands for.
pub open spec fn outcome(r: Result<Command, ArgError>) -> ParsedArgs {
    match r {
        Ok(Command::Serve(s)) => ParsedArgs::Serve {
            provider: s.provider,
            port: s.port@,
            pool_size: s.pool_size,
        },
        Ok(Command::Download(name)) => ParsedArgs::Download(name@),
        Ok(Command::ListCatalog) => ParsedArgs::ListCatalog,
        Ok(Command::ListInstalled) => ParsedArgs::ListInstalled,
        Ok(Command::Help) => ParsedArgs::Help,
        Ok(Command::UnknownOption(o)) => ParsedArgs::UnknownOption(o@),
        Err(e) => ParsedArgs::Failed(e),
    }
}

/// The port when `--port` is not given: the `PORT` environment variable, or 8901.
pub open spec fn default_port(env_port: Option<Seq<char>>) -> Seq<char> {
    match env_port {
        Some(p) => p,
        None => "8901"@,
    }
}

/// The server options from position `i` on, with the settings gathered so
/// far; options are read left to right and the first one that fails, asks
/// for help or is unknown decides the outcome.
pub open spec fn scan_options(
    args: Seq<Seq<char>>,
    i: int,
    provider: ExecutionProvider,
    port: Option<Seq<char>>,
    pool_size: usize,
    env_port: Option<Seq<char>>,
) -> ParsedArgs
    decreases args.len() - i,
{
    if i < 0 || i >= args.len() {
        ParsedArgs::Serve {
            provider,
            port: match port {
                Some(p) => p,
                None => default_port(env_port),
            },
            pool_size,
        }
    } else if args[i] == "--npu"@ {
        scan_options(args, i + 1, ExecutionProvider::Npu, port, pool_size, env_port)
    } else if args[i] == "--cpu"@ {
        scan_options(args, i + 1, ExecutionProvider::Cpu, port, pool_size, env_port)
    } else if args[i] == "--port"@ {
        if i + 1 >= args.len() {
            ParsedArgs::Failed(ArgError::MissingPortValue)
        } else {
            scan_options(args, i + 2, provider, Some(args[i + 1]), pool_size, env_port)
        }
    } else if args[i] == "--pool-size"@ {
        if i + 1 >= args.len() {
            ParsedArgs::Failed(ArgError::MissingPoolSizeValue)
        } else {
            match parse_usize_spec(args[i + 1]) {
                None => ParsedArgs::Failed(ArgError::InvalidPoolSize),
                Some(n) => if n == 0 {
                    ParsedArgs::Failed(ArgError::ZeroPoolSize)
                } else {
                    scan_options(args, i + 2, provider, port, n, env_port)
                },
            }
        }
    } else if args[i] == "--help"@ || args[i] == "-h"@ {
        ParsedArgs::Help
    } else {
        ParsedArgs::UnknownOption(args[i])
    }
}

/// What the command line `args` (without the program name) asks for, given
/// the `PORT` environment variable.
pub open spec fn parse_args_spec(args: Seq<Seq<char>>, env_port: Option<Seq<char>>) -> ParsedArgs {
    if args.len() == 0 {
        ParsedArgs::Serve {
            provider: ExecutionProvider::Cpu,
            port: default_port(env_port),
            pool_size: 0,
        }
    } else if args[0] == "download"@ {
        if args.len() < 2 || args[1] == "--list"@ {
            ParsedArgs::ListCatalog
        } else {
            ParsedArgs::Download(args[1])
        }
    } else if args[0] == "models"@ {
        ParsedArgs::ListInstalled
    } else {
        scan_options(args, 0, ExecutionProvider::Cpu, None, 0, env_port)
    }
}

/// The text of an optional string.
pub open spec fn opt_view(o: Option<String>) -> Option<Seq<char>> {
    match o {
        Some(s) => Some(s@),
        None => None,
    }
}

fn port_or_default(port: Option<String>, env_port: Option<String>) -> (r: String)
    ensures
        r@ == match port {
            Some(p) => p@,
            None => default_port(
opt_view(env_port),
            ),
        },
{
    match port {
        Some(p) => p,
        None => match env_port {
            Some(e) => e,
            None => "8901".to_owned(),
        },
    }
}

/// Parses the command line `args` (without the program name); `env_port` is
/// the `PORT` environment variable, used when no `--port` is given.
pub fn parse_args(args: &Vec<String>, env_port: Option<String>) -> (r: Result<Command, ArgError>)
    ensures
        outcome(r) == parse_args_spec(
            string_views(args@),
opt_view(env_port),
        ),
{
    let ghost argv = string_views(args@);
    let ghost env = opt_view(env_port);
    if args.len() == 0 {
        return Ok(
            Command::Serve(
                ServeArgs {
                    provider: ExecutionProvider::Cpu,
                    port: port_or_default(None, env_port),
                    pool_size: 0,
                },
            ),
        );
    }
    assert(argv[0] == args@[0]@);
    if str_eq(args[0].as_str(), "download") {
        if args.len() < 2 {
            return Ok(Command::ListCatalog);
        }
        assert(argv[1] == args@[1]@);
        if str_eq(args[1].as_str(), "--list") {
            return Ok(Command::ListCatalog);
        }
        return Ok(Command::Download(args[1].clone()));
    }
    if str_eq(args[0].as_str(), "models") {
        return Ok(Command::ListInstalled);
    }
    assert(parse_args_spec(argv, env) == scan_options(argv, 0, ExecutionProvider::Cpu, None, 0, env));
    let mut provider = ExecutionProvider::Cpu;
    let mut port: Option<String> = None;
    let mut pool_size: usize = 0;
    let mut i: usize = 0;
    while i < args.len()
        invariant
            argv == string_views(args@),
            env == opt_view(env_port),
            parse_args_spec(argv, env) == scan_options(argv, 0, ExecutionProvider::Cpu, None, 0, env),
            i <= args@.len(),
            scan_options(argv, 0, ExecutionProvider::Cpu, None, 0, env) == scan_options(
                argv,
                i as int,
                provider,
opt_view(port),
                pool_size,
                env,
            ),
        decreases args@.len() - i,
    {
        let arg = args[i].as_str();
        assert(argv[i as int] == arg@);
        if str_eq(arg, "--npu") {
            provider = ExecutionProvider::Npu;
        } else if str_eq(arg, "--cpu") {
            provider = ExecutionProvider::Cpu;
        } else if str_eq(arg, "--port") {
            i = i + 1;
            if i >= args.len() {
                assert(scan_options(argv, i - 1, provider, opt_view(port), pool_size, env)
                    == ParsedArgs::Failed(ArgError::MissingPortValue));
                return Err(ArgError::MissingPortValue);
            }
            assert(argv[i as int] == args@[i as int]@);
            port = Some(args[i].clone());
        } else if str_eq(arg, "--pool-size") {
            i = i + 1;
            if i >= args.len() {
                assert(scan_options(argv, i - 1, provider, opt_view(port), pool_size, env)
                    == ParsedArgs::Failed(ArgError::MissingPoolSizeValue));
                return Err(ArgError::MissingPoolSizeValue);
            }
            assert(argv[i as int] == args@[i as int]@);
            match parse_usize(args[i].as_str()) {
                None => {
                    return Err(ArgError::InvalidPoolSize);
                },
                Some(n) => {
                    if n == 0 {
                        return Err(ArgError::ZeroPoolSize);
                    }
                    pool_size = n;
                },
            }
        } else if str_eq(arg, "--help") || str_eq(arg, "-h") {
            assert(scan_options(argv, i as int, provider, opt_view(port), pool_size, env)
                == ParsedArgs::Help);
            return Ok(Command::Help);
        } else {
            assert(scan_options(argv, i as int, provider, opt_view(port), pool_size, env)
                == ParsedArgs::UnknownOption(arg@));
            return Ok(Command::UnknownOption(args[i].clone()));
        }
        i = i + 1;
    }
    Ok(Command::Serve(ServeArgs { provider, port: port_or_default(port, env_port), pool_size }))
}

/// Inference sessions per model: the requested number, or by default 2 on
/// the NPU and 4 on the CPU.
pub fn resolve_pool_size(requested: usize, provider: ExecutionProvider) -> (n: usize)
    ensures
        n == if requested > 0 {
            requested
        } else if provider == ExecutionProvider::Npu {
            2
        } else {
            4
        },
        n >= 1,
{
    if requested > 0 {
        requested
    } else if provider == ExecutionProvider::Npu {
        2
    } else {
        4
    }
}

/// `download <name>` asks to download the model `<name>`, whatever follows
/// it, unless the name is `--list`; `download` alone and `download --list`
/// ask for the catalog.
pub proof fn lemma_download_command(args: Seq<Seq<char>>, env_port: Option<Seq<char>>)
    requires
        args.len() >= 1,
        args[0] == "download"@,
    ensures
        args.len() >= 2 && args[1] != "--list"@ ==> parse_args_spec(args, env_port)
            == ParsedArgs::Download(args[1]),
        args.len() == 1 || args[1] == "--list"@ ==> parse_args_spec(args, env_port)
            == ParsedArgs::ListCatalog,
{
}

proof fn lemma_scan_shift(
    a: Seq<Seq<char>>,
    b: Seq<Seq<char>>,
    i: int,
    provider: ExecutionProvider,
    port: Option<Seq<char>>,
    pool_size: usize,
    env_port: Option<Seq<char>>,
)
    requires
        0 <= i,
    ensures
        scan_options(a + b, a.len() + i, provider, port, pool_size, env_port) == scan_options(
            b,
            i,
            provider,
            port,
            pool_size,
            env_port,
        ),
    decreases b.len() - i,
{
    let ab = a + b;
    let k = a.len() + i;
    if i < b.len() {
        assert(ab[k] == b[i]);
        if i + 1 < b.len() {
            assert(ab[k + 1] == b[i + 1]);
        }
        lemma_scan_shift(a, b, i + 1, ExecutionProvider::Npu, port, pool_size, env_port);
        lemma_scan_shift(a, b, i + 1, ExecutionProvider::Cpu, port, pool_size, env_port);
        if i + 1 < b.len() {
            lemma_scan_shift(a, b, i + 2, provider, Some(b[i + 1]), pool_size, env_port);
            match parse_usize_spec(b[i + 1]) {
                Some(n) => {
                    lemma_scan_shift(a, b, i + 2, provider, port, n, env_port);
                },
                None => {},
            }
        }
    }
}

/// Reading options from `i` on with a pool size `n` already set gives what
/// reading them with none set gives, with `n` as the pool size when they set
/// none.
proof fn lemma_scan_pool_size(
    args: Seq<Seq<char>>,
    i: int,
    provider: ExecutionProvider,
    port: Option<Seq<char>>,
    n: usize,
    env_port: Option<Seq<char>>,
)
    requires
        0 <= i,
    ensures
        match scan_options(args, i, provider, port, 0, env_port) {
            ParsedArgs::Serve { provider: p, port: pt, pool_size: m } => scan_options(
                args,
                i,
                provider,
                port,
                n,
                env_port,
            ) == (ParsedArgs::Serve { provider: p, port: pt, pool_size: if m == 0 { n } else { m } }),
            other => scan_options(args, i, provider, port, n, env_port) == other,
        },
    decreases args.len() - i,
{
    if i < args.len() {
        if args[i] == "--npu"@ {
            lemma_scan_pool_size(args, i + 1, ExecutionProvider::Npu, port, n, env_port);
        } else if args[i] == "--cpu"@ {
            lemma_scan_pool_size(args, i + 1, ExecutionProvider::Cpu, port, n, env_port);
        } else if args[i] == "--port"@ {
            if i + 1 < args.len() {
                lemma_scan_pool_size(args, i + 2, provider, Some(args[i + 1]), n, env_port);
            }
        } else if args[i] == "--pool-size"@ {
            if i + 1 < args.len() {
                match parse_usize_spec(args[i + 1]) {
                    Some(k) => {
                        if k > 0 {
                            lemma_pool_size_kept(args, i + 2, provider, port, k, env_port);
                        }
                    },
                    None => {},
                }
            }
        }
    }
}

/// Once a positive pool size is set, a served outcome keeps a positive one.
proof fn lemma_pool_size_kept(
    args: Seq<Seq<char>>,
    i: int,
    provider: ExecutionProvider,
    port: Option<Seq<char>>,
    m: usize,
    env_port: Option<Seq<char>>,
)
    requires
        0 <= i,
        m > 0,
    ensures
        scan_options(args, i, provider, port, m, env_port) matches ParsedArgs::Serve { pool_size, .. }
            ==> pool_size > 0,
    decreases args.len() - i,
{
    if i < args.len() {
        if args[i] == "--npu"@ {
            lemma_pool_size_kept(args, i + 1, ExecutionProvider::Npu, port, m, env_port);
        } else if args[i] == "--cpu"@ {
            lemma_pool_size_kept(args, i + 1, ExecutionProvider::Cpu, port, m, env_port);
        } else if args[i] == "--port"@ {
            if i + 1 < args.len() {
                lemma_pool_size_kept(args, i + 2, provider, Some(args[i + 1]), m, env_port);
            }
        } else if args[i] == "--pool-size"@ {
            if i + 1 < args.len() {
                match parse_usize_spec(args[i + 1]) {
                    Some(k) => {
                        if k > 0 {
                            lemma_pool_size_kept(args, i + 2, provider, port, k, env_port);
                        }
                    },
                    None => {},
                }
            }
        }
    }
}

/// `--pool-size N` (N a positive number) in front of further server options
/// sets the pool size to N and changes nothing else: the options after it are
/// read exactly as they are read on their own, a later `--pool-size` wins,
/// and an error, help request or unknown option among them decides as it
/// would alone.
pub proof fn lemma_pool_size_then_options(
    n_text: Seq<char>,
    n: usize,
    rest: Seq<Seq<char>>,
    env_port: Option<Seq<char>>,
)
    requires
        parse_usize_spec(n_text) == Some(n),
        n > 0,
        rest.len() == 0 || (rest[0] != "download"@ && rest[0] != "models"@),
    ensures
        match parse_args_spec(rest, env_port) {
            ParsedArgs::Serve { provider, port, pool_size } => parse_args_spec(
                seq!["--pool-size"@, n_text] + rest,
                env_port,
            ) == (ParsedArgs::Serve {
                provider,
                port,
                pool_size: if pool_size == 0 {
                    n
                } else {
                    pool_size
                },
            }),
            other => parse_args_spec(seq!["--pool-size"@, n_text] + rest, env_port) == other,
        },
{
    let head = seq!["--pool-size"@, n_text];
    let args = head + rest;
    reveal_strlit("--pool-size");
    reveal_strlit("download");
    reveal_strlit("models");
    reveal_strlit("--npu");
    reveal_strlit("--cpu");
    reveal_strlit("--port");
    assert(args[0] == "--pool-size"@);
    assert(args[1] == n_text);
    assert("--pool-size"@ != "download"@);
    assert("--pool-size"@ != "models"@);
    assert("--pool-size"@ != "--npu"@);
    assert("--pool-size"@ != "--cpu"@);
    assert("--pool-size"@ != "--port"@);
    assert(parse_args_spec(args, env_port) == scan_options(args, 2, ExecutionProvider::Cpu, None, n, env_port));
    lemma_scan_shift(head, rest, 0, ExecutionProvider::Cpu, None, n, env_port);
    lemma_scan_pool_size(rest, 0, ExecutionProvider::Cpu, None, n, env_port);
    assert(parse_args_spec(rest, env_port) == scan_options(rest, 0, ExecutionProvider::Cpu, None, 0, env_port));
}

/// The option that selects `provider`.
pub open spec fn provider_flag(provider: ExecutionProvider) -> Seq<char> {
    match provider {
        ExecutionProvider::Npu => "--npu"@,
        ExecutionProvider::Cpu => "--cpu"@,
    }
}

proof fn lemma_scan_then_flag(
    args: Seq<Seq<char>>,
    i: int,
    provider: ExecutionProvider,
    port: Option<Seq<char>>,
    pool_size: usize,
    env_port: Option<Seq<char>>,
    chosen: ExecutionProvider,
)
    requires
        0 <= i <= args.len(),
    ensures
        scan_options(args, i, provider, port, pool_size, env_port) matches ParsedArgs::Serve {
            port: pt,
            pool_size: m,
            ..
        } ==> scan_options(args.push(provider_flag(chosen)), i, provider, port, pool_size, env_port)
            == (ParsedArgs::Serve { provider: chosen, port: pt, pool_size: m }),
    decreases args.len() - i,
{
    reveal_strlit("--npu");
    reveal_strlit("--cpu");
    assert("--npu"@[2] != "--cpu"@[2]);
    assert("--npu"@ != "--cpu"@);
    let longer = args.push(provider_flag(chosen));
    if i < args.len() {
        assert(longer[i] == args[i]);
        if i + 1 < args.len() {
            assert(longer[i + 1] == args[i + 1]);
        }
        if args[i] == "--npu"@ {
            lemma_scan_then_flag(args, i + 1, ExecutionProvider::Npu, port, pool_size, env_port, chosen);
        } else if args[i] == "--cpu"@ {
            lemma_scan_then_flag(args, i + 1, ExecutionProvider::Cpu, port, pool_size, env_port, chosen);
        } else if args[i] == "--port"@ {
            if i + 1 < args.len() {
                lemma_scan_then_flag(args, i + 2, provider, Some(args[i + 1]), pool_size, env_port, chosen);
            }
        } else if args[i] == "--pool-size"@ {
            if i + 1 < args.len() {
                match parse_usize_spec(args[i + 1]) {
                    Some(k) => {
                        lemma_scan_then_flag(args, i + 2, provider, port, k, env_port, chosen);
                    },
                    None => {},
                }
            }
        }
    } else {
        assert(longer[i] == provider_flag(chosen));
        assert(scan_options(longer, i + 1, chosen, port, pool_size, env_port) == (ParsedArgs::Serve {
            provider: chosen,
            port: match port {
                Some(p) => p,
                None => default_port(env_port),
            },
            pool_size,
        }));
    }
}

/// `--npu` or `--cpu` at the end of a server command line that is read
/// without fault selects that provider and changes nothing else: the last of
/// these options decides where inference runs.
pub proof fn lemma_last_provider_option_wins(
    args: Seq<Seq<char>>,
    env_port: Option<Seq<char>>,
    chosen: ExecutionProvider,
)
    requires
        args.len() == 0 || (args[0] != "download"@ && args[0] != "models"@),
    ensures
        parse_args_spec(args, env_port) matches ParsedArgs::Serve { port, pool_size, .. }
            ==> parse_args_spec(args.push(provider_flag(chosen)), env_port) == (ParsedArgs::Serve {
            provider: chosen,
            port,
            pool_size,
        }),
{
    reveal_strlit("--npu");
    reveal_strlit("--cpu");
    reveal_strlit("download");
    reveal_strlit("models");
    let longer = args.push(provider_flag(chosen));
    assert(longer[0] != "download"@ && longer[0] != "models"@) by {
        if args.len() > 0 {
            assert(longer[0] == args[0]);
        } else {
            assert(longer[0] == provider_flag(chosen));
            assert(provider_flag(chosen).len() == 5);
            assert("download"@.len() == 8);
            assert("models"@.len() == 6);
        }
    }
    assert(parse_args_spec(longer, env_port) == scan_options(longer, 0, ExecutionProvider::Cpu, None, 0, env_port));
    lemma_scan_then_flag(args, 0, ExecutionProvider::Cpu, None, 0, env_port, chosen);
}

/// The port that a served outcome reports for the settings gathered.
pub open spec fn resolved_port(port: Option<Seq<char>>, env_port: Option<Seq<char>>) -> Seq<char> {
    match port {
        Some(p) => p,
        None => default_port(env_port),
    }
}

proof fn lemma_scan_then(
    args: Seq<Seq<char>>,
    i: int,
    provider: ExecutionProvider,
    port: Option<Seq<char>>,
    pool_size: usize,
    env_port: Option<Seq<char>>,
    tail: Seq<Seq<char>>,
) -> (st: (ExecutionProvider, Option<Seq<char>>, usize))
    requires
        0 <= i <= args.len(),
    ensures
        scan_options(args, i, provider, port, pool_size, env_port) is Serve ==> {
            &&& scan_options(args, i, provider, port, pool_size, env_port) == (ParsedArgs::Serve {
                provider: st.0,
                port: resolved_port(st.1, env_port),
                pool_size: st.2,
            })
            &&& scan_options(args + tail, i, provider, port, pool_size, env_port) == scan_options(
                tail,
                0,
                st.0,
                st.1,
                st.2,
                env_port,
            )
        },
    decreases args.len() - i,
{
    let all = args + tail;
    if i == args.len() {
        lemma_scan_shift(args, tail, 0, provider, port, pool_size, env_port);
        (provider, port, pool_size)
    } else {
        assert(all[i] == args[i]);
        if i + 1 < args.len() {
            assert(all[i + 1] == args[i + 1]);
        }
        if args[i] == "--npu"@ {
            lemma_scan_then(args, i + 1, ExecutionProvider::Npu, port, pool_size, env_port, tail)
        } else if args[i] == "--cpu"@ {
            lemma_scan_then(args, i + 1, ExecutionProvider::Cpu, port, pool_size, env_port, tail)
        } else if args[i] == "--port"@ {
            if i + 1 < args.len() {
                lemma_scan_then(args, i + 2, provider, Some(args[i + 1]), pool_size, env_port, tail)
            } else {
                (provider, port, pool_size)
            }
        } else if args[i] == "--pool-size"@ {
            if i + 1 < args.len() {
                match parse_usize_spec(args[i + 1]) {
                    Some(k) => lemma_scan_then(args, i + 2, provider, port, k, env_port, tail),
                    None => (provider, port, pool_size),
                }
            } else {
                (provider, port, pool_size)
            }
        } else {
            (provider, port, pool_size)
        }
    }
}

/// Options are read left to right, each after the ones before it. To a
/// server command line that is read without fault, appending `--port P` sets
/// the port to P; `--pool-size N` sets the pool size to N when N is a
/// positive number, and otherwise fails as invalid or as zero; a bare
/// `--port` or `--pool-size` fails for want of a value; `--help` or `-h` asks
/// for help; any other word is an unknown option. Everything else that the
/// command line set is kept.
pub proof fn lemma_appended_option(
    args: Seq<Seq<char>>,
    env_port: Option<Seq<char>>,
    value: Seq<char>,
    word: Seq<char>,
)
    requires
        args.len() == 0 || (args[0] != "download"@ && args[0] != "models"@),
    ensures
        parse_args_spec(args, env_port) matches ParsedArgs::Serve { provider, port, pool_size } ==> {
            &&& parse_args_spec(args + seq!["--port"@, value], env_port) == (ParsedArgs::Serve {
                provider,
                port: value,
                pool_size,
            })
            &&& parse_args_spec(args + seq!["--pool-size"@, value], env_port) == match parse_usize_spec(
                value,
            ) {
                None => ParsedArgs::Failed(ArgError::InvalidPoolSize),
                Some(n) => if n == 0 {
                    ParsedArgs::Failed(ArgError::ZeroPoolSize)
                } else {
                    ParsedArgs::Serve { provider, port, pool_size: n }
                },
            }
            &&& parse_args_spec(args.push("--port"@), env_port) == ParsedArgs::Failed(
                ArgError::MissingPortValue,
            )
            &&& parse_args_spec(args.push("--pool-size"@), env_port) == ParsedArgs::Failed(
                ArgError::MissingPoolSizeValue,
            )
            &&& parse_args_spec(args.push("--help"@), env_port) == ParsedArgs::Help
            &&& parse_args_spec(args.push("-h"@), env_port) == ParsedArgs::Help
            &&& (word != "--npu"@ && word != "--cpu"@ && word != "--port"@ && word != "--pool-size"@
                && word != "--help"@ && word != "-h"@ && word != "download"@ && word != "models"@)
                ==> parse_args_spec(args.push(word), env_port) == ParsedArgs::UnknownOption(word)
        },
{
    reveal_strlit("--npu");
    reveal_strlit("--cpu");
    reveal_strlit("--port");
    reveal_strlit("--pool-size");
    reveal_strlit("--help");
    reveal_strlit("-h");
    reveal_strlit("download");
    reveal_strlit("models");
    assert("--port"@.len() == 6 && "--pool-size"@.len() == 11 && "--help"@.len() == 6);
    assert("-h"@.len() == 2 && "download"@.len() == 8 && "models"@.len() == 6);
    assert("--npu"@.len() == 5 && "--cpu"@.len() == 5);
    assert("--port"@[2] != "--help"@[2]);
    assert("--port"@[2] != "models"@[2]);
    assert("--help"@[2] != "models"@[2]);
    assert("--npu"@[2] != "--cpu"@[2]);
    assert("--npu"@ != "--port"@);
    assert("--cpu"@ != "--port"@);
    assert("--npu"@ != "--help"@);
    assert("--cpu"@ != "--help"@);
    if let ParsedArgs::Serve { provider, port, pool_size } = parse_args_spec(args, env_port) {
        let t0 = seq!["--port"@, value];
        let st = lemma_append_tail(args, env_port, t0);
        assert(t0[0] == "--port"@ && t0[1] == value);
        assert(scan_options(t0, 2, st.0, Some(value), st.2, env_port) == (ParsedArgs::Serve {
            provider: st.0,
            port: value,
            pool_size: st.2,
        }));
        assert(parse_args_spec(args + t0, env_port) == (ParsedArgs::Serve { provider, port: value, pool_size }));
        let t1 = seq!["--pool-size"@, value];
        let st1 = lemma_append_tail(args, env_port, t1);
        assert(t1[0] == "--pool-size"@ && t1[1] == value);
        if let Some(n) = parse_usize_spec(value) {
            assert(scan_options(t1, 2, st1.0, st1.1, n, env_port) == (ParsedArgs::Serve {
                provider: st1.0,
                port: resolved_port(st1.1, env_port),
                pool_size: n,
            }));
        }
        assert(parse_args_spec(args + t1, env_port) == match parse_usize_spec(value) {
            None => ParsedArgs::Failed(ArgError::InvalidPoolSize),
            Some(n) => if n == 0 {
                ParsedArgs::Failed(ArgError::ZeroPoolSize)
            } else {
                ParsedArgs::Serve { provider, port, pool_size: n }
            },
        });
        let t2 = seq!["--port"@];
        lemma_append_tail(args, env_port, t2);
        assert(args.push("--port"@) =~= args + t2);
        let t3 = seq!["--pool-size"@];
        lemma_append_tail(args, env_port, t3);
        assert(args.push("--pool-size"@) =~= args + t3);
        let t4 = seq!["--help"@];
        lemma_append_tail(args, env_port, t4);
        assert(args.push("--help"@) =~= args + t4);
        let t5 = seq!["-h"@];
        lemma_append_tail(args, env_port, t5);
        assert(args.push("-h"@) =~= args + t5);
        if word != "--npu"@ && word != "--cpu"@ && word != "--port"@ && word != "--pool-size"@
            && word != "--help"@ && word != "-h"@ && word != "download"@ && word != "models"@ {
            let t6 = seq![word];
            lemma_append_tail(args, env_port, t6);
            assert(args.push(word) =~= args + t6);
        }
    }
}

/// Reading a command line that ends in `tail`, after a part that is read
/// without fault, reads `tail` with the settings that part gathered.
proof fn lemma_append_tail(
    args: Seq<Seq<char>>,
    env_port: Option<Seq<char>>,
    tail: Seq<Seq<char>>,
) -> (st: (ExecutionProvider, Option<Seq<char>>, usize))
    requires
        args.len() == 0 || (args[0] != "download"@ && args[0] != "models"@),
        tail.len() > 0,
        tail[0] != "download"@,
        tail[0] != "models"@,
    ensures
        parse_args_spec(args, env_port) is Serve ==> {
            &&& parse_args_spec(args, env_port) == (ParsedArgs::Serve {
                provider: st.0,
                port: resolved_port(st.1, env_port),
                pool_size: st.2,
            })
            &&& parse_args_spec(args + tail, env_port) == scan_options(
                tail,
                0,
                st.0,
                st.1,
                st.2,
                env_port,
            )
        },
{
    let all = args + tail;
    if args.len() > 0 {
        assert(all[0] == args[0]);
    } else {
        assert(all[0] == tail[0]);
    }
    assert(parse_args_spec(args, env_port) == scan_options(args, 0, ExecutionProvider::Cpu, None, 0, env_port));
    lemma_scan_then(args, 0, ExecutionProvider::Cpu, None, 0, env_port, tail)
}

/// With no argument the server starts on the CPU, on the port that `PORT`
/// names or else 8901, with the default pool size; `models` lists the
/// installed models, whatever follows it.
pub proof fn lemma_defaults_and_models(args: Seq<Seq<char>>, env_port: Option<Seq<char>>)
    ensures
        args.len() == 0 ==> parse_args_spec(args, env_port) == (ParsedArgs::Serve {
            provider: ExecutionProvider::Cpu,
            port: match env_port {
                Some(p) => p,
                None => "8901"@,
            },
            pool_size: 0,
        }),
        args.len() > 0 && args[0] == "models"@ ==> parse_args_spec(args, env_port)
            == ParsedArgs::ListInstalled,
{
    reveal_strlit("download");
    reveal_strlit("models");
    assert("download"@.len() != "models"@.len());
}

} // verus!
