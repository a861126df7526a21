//! What the pool is configured with, and where the configuration is found.

use crate::text::{decimal, decimal_text, same_text, strip_prefix};
use vstd::prelude::*;

verus! {

/// The node that the pool works for.
#[derive(Debug, Clone)]
pub struct NodeConfig {
    pub rpc_url: String,
    pub rpc_user: String,
    pub rpc_pass: String,
    pub zmq_url: String,
}

/// The server that miners connect to.
#[derive(Debug, Clone)]
pub struct StratumConfig {
    pub port: u16,
    pub initial_difficulty: u64,
    /// Where the development fee goes; also the fallback for miners with an invalid address.
    pub fee_address: Option<String>,
}

/// The database that blocks and shares are reported to.
#[derive(Debug, Clone)]
pub struct PoolConfig {
    pub supabase_url: String,
    pub supabase_service_key: String,
}

/// The whole configuration.
#[derive(Debug, Clone)]
pub struct AppConfig {
    pub node: NodeConfig,
    pub stratum: StratumConfig,
    pub pool: PoolConfig,
}

/// The characters of a list of texts.
pub open spec fn texts_of(list: Seq<String>) -> Seq<Seq<char>> {
    list.map_values(|text: String| text@)
}

/// The path that the arguments from index `from` on name: what follows the first `--config` or
/// `-c`, or stands behind the first `--config=`, whichever comes first.
pub open spec fn named_config(args: Seq<Seq<char>>, from: int) -> Option<Seq<char>>
    decreases args.len() - from,
{
    if from < 0 || from >= args.len() {
        None
    } else if args[from] == "--config"@ || args[from] == "-c"@ {
        if from + 1 < args.len() {
            Some(args[from + 1])
        } else {
            None
        }
    } else if "--config="@.is_prefix_of(args[from]) {
        Some(args[from].skip("--config="@.len() as int))
    } else {
        named_config(args, from + 1)
    }
}

/// The configuration path among the arguments of the program, the first of which is the name of
/// the program.
pub fn parse_config_arg(args: &Vec<String>) -> (path: Option<String>)
    ensures
        match path {
            Some(p) => named_config(texts_of(args@), 1) == Some(p@),
            None => named_config(texts_of(args@), 1) is None,
        },
{
    let ghost texts = texts_of(args@);
    let total: usize = args.len();
    let mut i: usize = 1;
    while i < total
        invariant
            1 <= i,
            total == args@.len(),
            texts == texts_of(args@),
            named_config(texts, i as int) == named_config(texts, 1),
        decreases total - i,
    {
        let arg: &str = args[i].as_str();
        assert(texts[i as int] == arg@);
        if same_text(arg, "--config") || same_text(arg, "-c") {
            if i + 1 < total {
                assert(texts[i + 1] == args@[i + 1]@);
                return Some(args[i + 1].clone());
            }
            return None;
        }
        if let Some(path) = strip_prefix(arg, "--config=") {
            return Some(path.to_owned());
        }
        i = i + 1;
    }
    None
}

/// The address that the server listens on: the port on every interface.
pub fn listen_address(port: u16) -> (address: String)
    ensures
        address@ == "0.0.0.0:"@ + decimal(port as nat),
{
    "0.0.0.0:".to_owned().concat(decimal_text(port as u64).as_str())
}

/// The first argument behind the program's name that speaks of the configuration decides:
/// `--config` and `-c` take the argument behind them, and `--config=` takes what is written behind
/// it. Without any of these there is no path.
pub proof fn first_configuration_argument_decides(
    args: Seq<Seq<char>>,
    from: int,
    at: int,
    path: Seq<char>,
)
    requires
        0 <= from <= at <= args.len(),
        forall|k: int|
            from <= k < at ==> (#[trigger] args[k]) != "--config"@ && args[k] != "-c"@
                && !"--config="@.is_prefix_of(args[k]),
    ensures
        at == args.len() ==> named_config(args, from) is None,
        at < args.len() && (args[at] == "--config"@ || args[at] == "-c"@) ==> {
            &&& at + 1 < args.len() ==> named_config(args, from) == Some(args[at + 1])
            &&& at + 1 == args.len() ==> named_config(args, from) is None
        },
        at < args.len() && args[at] == "--config="@ + path ==> named_config(args, from) == Some(
            path,
        ),
    decreases at - from,
{
    if from < at {
        first_configuration_argument_decides(args, from + 1, at, path);
    } else if at < args.len() && args[at] == "--config="@ + path {
        reveal_strlit("--config");
        reveal_strlit("-c");
        reveal_strlit("--config=");
        assert("--config"@.len() == 8 && "-c"@.len() == 2 && "--config="@.len() == 9);
        assert(args[at].len() >= 9);
        assert(args[at].subrange(0, 9) =~= "--config="@);
        assert(args[at].skip(9) =~= path);
    }
}

/// A list of arguments stands for the texts it holds, in their order.
pub proof fn arguments_stand_for_their_texts(args: Seq<String>, i: int)
    requires
        0 <= i < args.len(),
    ensures
        texts_of(args).len() == args.len(),
        texts_of(args)[i] == args[i]@,
{
}

} // verus!
