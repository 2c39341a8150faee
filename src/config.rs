//! The server's configuration, read from its command-line arguments:
//! `--port <p>`, `--replicaof "<host> <port>"`, `--dir <path>` and
//! `--dbfilename <name>`. Other arguments are ignored.
use vstd::prelude::*;
use crate::bytes::{bytes_eq, copy_of};
use crate::decimal::{digits_value, is_numeral, parse_numeral};
use crate::node::RedisState;

verus! {

pub struct Config {
    pub port: u16,
    pub role: RedisState,
    pub master_replid: Option<Vec<u8>>,
    pub master_repl_offset: Option<u64>,
    pub master_port: Option<u16>,
    pub master_host: Option<Vec<u8>>,
    pub rdb_dir: Option<Vec<u8>>,
    pub rdb_filename: Option<Vec<u8>>,
}

pub struct ConfigView {
    pub port: u16,
    pub role: RedisState,
    pub master_replid: Option<Seq<u8>>,
    pub master_repl_offset: Option<u64>,
    pub master_port: Option<u16>,
    pub master_host: Option<Seq<u8>>,
    pub rdb_dir: Option<Seq<u8>>,
    pub rdb_filename: Option<Seq<u8>>,
}

pub open spec fn opt_view(o: Option<Vec<u8>>) -> Option<Seq<u8>> {
    match o {
        Some(v) => Some(v@),
        None => None,
    }
}

impl View for Config {
    type V = ConfigView;

    open spec fn view(&self) -> ConfigView {
        ConfigView {
            port: self.port,
            role: self.role,
            master_replid: opt_view(self.master_replid),
            master_repl_offset: self.master_repl_offset,
            master_port: self.master_port,
            master_host: opt_view(self.master_host),
            rdb_dir: opt_view(self.rdb_dir),
            rdb_filename: opt_view(self.rdb_filename),
        }
    }
}

/// Why the arguments could not be read.
#[derive(PartialEq, Eq, Structural, Debug, Clone, Copy)]
pub enum ConfigError {
    /// A flag came last, without its value.
    NoArgFound,
    /// A port that is not a number from 0 to 65535.
    InvalidPort,
    /// A `--replicaof` value that is not a host and a port separated by a space.
    InvalidReplicaOf,
}

/// The leader's replication id.
pub open spec fn default_replid() -> Seq<u8> {
    seq![
        56u8, 51, 55, 49, 98, 52, 102, 98, 49, 49, 53, 53, 98, 55, 49, 102, 52, 97, 48, 52, 100, 51,
        101, 49, 98, 99, 51, 101, 49, 56, 99, 52, 97, 57, 57, 48, 97, 101, 101, 98,
    ]
}

/// The default port.
pub const DEFAULT_PORT: u16 = 6379;

pub open spec fn flag_port() -> Seq<u8> {
    seq![45u8, 45, 112, 111, 114, 116]
}

pub open spec fn flag_replicaof() -> Seq<u8> {
    seq![45u8, 45, 114, 101, 112, 108, 105, 99, 97, 111, 102]
}

pub open spec fn flag_dir() -> Seq<u8> {
    seq![45u8, 45, 100, 105, 114]
}

pub open spec fn flag_dbfilename() -> Seq<u8> {
    seq![45u8, 45, 100, 98, 102, 105, 108, 101, 110, 97, 109, 101]
}

pub open spec fn port_value(t: Seq<u8>) -> Option<u16> {
    if is_numeral(t) && digits_value(t) <= 65535 {
        Some(digits_value(t) as u16)
    } else {
        None
    }
}

/// The first space in `t`.
pub open spec fn first_space(t: Seq<u8>) -> Option<int> {
    if exists|i: int| 0 <= i < t.len() && t[i] == 32u8 {
        Some(choose|i: int| 0 <= i < t.len() && t[i] == 32u8 && forall|j: int| 0 <= j < i ==> t[j] != 32u8)
    } else {
        None
    }
}

/// `<host> <port>`: the host before the first space, the port after it.
pub open spec fn replicaof_value(t: Seq<u8>) -> Option<(Seq<u8>, u16)> {
    match first_space(t) {
        Some(s) => match port_value(t.subrange(s + 1, t.len() as int)) {
            Some(p) => Some((t.subrange(0, s), p)),
            None => None,
        },
        None => None,
    }
}

pub open spec fn initial_config() -> ConfigView {
    ConfigView {
        port: DEFAULT_PORT,
        role: RedisState::Master,
        master_replid: None,
        master_repl_offset: None,
        master_port: None,
        master_host: None,
        rdb_dir: None,
        rdb_filename: None,
    }
}

/// The configuration after the arguments from `i` on.
pub open spec fn apply_args(args: Seq<Seq<u8>>, i: int, c: ConfigView) -> Result<ConfigView, ConfigError>
    decreases args.len() - i,
{
    if i < 0 || i >= args.len() {
        Ok(c)
    } else if args[i] == flag_port() || args[i] == flag_replicaof() || args[i] == flag_dir()
        || args[i] == flag_dbfilename() {
        if i + 1 >= args.len() {
            Err(ConfigError::NoArgFound)
        } else {
            let v = args[i + 1];
            if args[i] == flag_port() {
                match port_value(v) {
                    Some(p) => apply_args(args, i + 2, ConfigView { port: p, ..c }),
                    None => Err(ConfigError::InvalidPort),
                }
            } else if args[i] == flag_replicaof() {
                match replicaof_value(v) {
                    Some((host, p)) => apply_args(
                        args,
                        i + 2,
                        ConfigView {
                            master_host: Some(host),
                            master_port: Some(p),
                            role: RedisState::Replica,
                            ..c
                        },
                    ),
                    None => Err(ConfigError::InvalidReplicaOf),
                }
            } else if args[i] == flag_dir() {
                apply_args(args, i + 2, ConfigView { rdb_dir: Some(v), ..c })
            } else {
                apply_args(args, i + 2, ConfigView { rdb_filename: Some(v), ..c })
            }
        }
    } else {
        apply_args(args, i + 1, c)
    }
}

/// The configuration that the arguments give; a leader also gets its
/// replication id and offset 0.
pub open spec fn config_of(args: Seq<Seq<u8>>) -> Result<ConfigView, ConfigError> {
    match apply_args(args, 0, initial_config()) {
        Ok(c) => Ok(
            if c.role == RedisState::Master {
                ConfigView { master_replid: Some(default_replid()), master_repl_offset: Some(0), ..c }
            } else {
                c
            },
        ),
        Err(e) => Err(e),
    }
}

pub open spec fn args_view(args: Seq<Vec<u8>>) -> Seq<Seq<u8>> {
    args.map_values(|a: Vec<u8>| a@)
}

fn read_port(t: &[u8]) -> (r: Option<u16>)
    ensures
        r == port_value(t@),
{
    assert(t@.subrange(0, t@.len() as int) =~= t@);
    match parse_numeral(t, 0, t.len()) {
        Some(n) => if n <= 65535 {
            Some(n as u16)
        } else {
            None
        },
        None => None,
    }
}

fn read_replicaof(t: &[u8]) -> (r: Option<(Vec<u8>, u16)>)
    ensures
        match r {
            Some((h, p)) => replicaof_value(t@) == Some((h@, p)),
            None => replicaof_value(t@) is None,
        },
{
    let mut i: usize = 0;
    while i < t.len()
        invariant
            i <= t@.len(),
            forall|j: int| 0 <= j < i ==> t@[j] != 32u8,
        decreases t@.len() - i,
    {
        if t[i] == 32u8 {
            let ghost s = choose|s: int| 0 <= s < t@.len() && t@[s] == 32u8 && forall|j: int|
                0 <= j < s ==> t@[j] != 32u8;
            assert(t@[i as int] == 32u8);
            assert(s == i) by {
                if s < i {
                    assert(t@[s] != 32u8);
                } else if s > i {
                    assert(t@[i as int] != 32u8);
                }
            }
            let host = copy_of(slice_range(t, 0, i).as_slice());
            let rest = slice_range(t, i + 1, t.len());
            return match read_port(rest.as_slice()) {
                Some(p) => Some((host, p)),
                None => None,
            };
        }
        i = i + 1;
    }
    None
}

fn slice_range(t: &[u8], from: usize, to: usize) -> (r: Vec<u8>)
    requires
        from <= to <= t@.len(),
    ensures
        r@ == t@.subrange(from as int, to as int),
{
    let mut out: Vec<u8> = Vec::new();
    let mut i: usize = from;
    while i < to
        invariant
            from <= i <= to <= t@.len(),
            out@ == t@.subrange(from as int, i as int),
        decreases to - i,
    {
        out.push(t[i]);
        i = i + 1;
        assert(out@ =~= t@.subrange(from as int, i as int));
    }
    out
}

impl Config {
    /// Reads the configuration from the process's arguments, each as bytes.
    pub fn parse(args: &Vec<Vec<u8>>) -> (r: Result<Config, ConfigError>)
        ensures
            match r {
                Ok(c) => config_of(args_view(args@)) == Ok::<ConfigView, ConfigError>(c@),
                Err(e) => config_of(args_view(args@)) == Err::<ConfigView, ConfigError>(e),
            },
    {
        let ghost a = args_view(args@);
        let mut c = Config {
            port: DEFAULT_PORT,
            role: RedisState::Master,
            master_replid: None,
            master_repl_offset: None,
            master_port: None,
            master_host: None,
            rdb_dir: None,
            rdb_filename: None,
        };
        let flag_port_bytes: &[u8] = &[45u8, 45, 112, 111, 114, 116];
        let flag_replicaof_bytes: &[u8] = &[45u8, 45, 114, 101, 112, 108, 105, 99, 97, 111, 102];
        let flag_dir_bytes: &[u8] = &[45u8, 45, 100, 105, 114];
        let flag_dbfilename_bytes: &[u8] = &[45u8, 45, 100, 98, 102, 105, 108, 101, 110, 97, 109, 101];
        assert(flag_port_bytes@ == flag_port());
        assert(flag_replicaof_bytes@ == flag_replicaof());
        assert(flag_dir_bytes@ == flag_dir());
        assert(flag_dbfilename_bytes@ == flag_dbfilename());
        let mut i: usize = 0;
        while i < args.len()
            invariant
                a == args_view(args@),
                a.len() == args@.len(),
                flag_port_bytes@ == flag_port(),
                flag_replicaof_bytes@ == flag_replicaof(),
                flag_dir_bytes@ == flag_dir(),
                flag_dbfilename_bytes@ == flag_dbfilename(),
                apply_args(a, 0, initial_config()) == apply_args(a, i as int, c@),
            decreases args@.len() - i,
        {
            let arg = args[i].as_slice();
            assert(arg@ == a[i as int]);
            let is_port = bytes_eq(arg, flag_port_bytes);
            let is_replicaof = bytes_eq(arg, flag_replicaof_bytes);
            let is_dir = bytes_eq(arg, flag_dir_bytes);
            let is_dbfilename = bytes_eq(arg, flag_dbfilename_bytes);
            if is_port || is_replicaof || is_dir || is_dbfilename {
                if i + 1 >= args.len() {
                    return Err(ConfigError::NoArgFound);
                }
                let v = args[i + 1].as_slice();
                assert(v@ == a[i + 1]);
                if is_port {
                    match read_port(v) {
                        Some(p) => {
                            c.port = p;
                        },
                        None => {
                            return Err(ConfigError::InvalidPort);
                        },
                    }
                } else if is_replicaof {
                    match read_replicaof(v) {
                        Some((host, p)) => {
                            c.master_host = Some(host);
                            c.master_port = Some(p);
                            c.role = RedisState::Replica;
                        },
                        None => {
                            return Err(ConfigError::InvalidReplicaOf);
                        },
                    }
                } else if is_dir {
                    c.rdb_dir = Some(copy_of(v));
                } else {
                    c.rdb_filename = Some(copy_of(v));
                }
                i = i + 2;
            } else {
                i = i + 1;
            }
        }
        if c.role == RedisState::Master {
            let id = copy_of(
                &[
                    56u8, 51, 55, 49, 98, 52, 102, 98, 49, 49, 53, 53, 98, 55, 49, 102, 52, 97, 48, 52,
                    100, 51, 101, 49, 98, 99, 51, 101, 49, 56, 99, 52, 97, 57, 57, 48, 97, 101, 101, 98,
                ],
            );
            assert(id@ =~= default_replid());
            c.master_replid = Some(id);
            c.master_repl_offset = Some(0);
        }
        Ok(c)
    }
}

} // verus!
