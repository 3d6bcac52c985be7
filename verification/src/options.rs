//! The configuration record that the server starts from, and its reading
//! from a list of command-line arguments.

use vstd::prelude::*;
use vstd::string::StrSliceExecFns;

verus! {

/// What the server was asked to be: the port it listens on and, for a
/// replica, the master it follows.
#[derive(Debug, Clone, PartialEq, Eq)]
pub struct Options {
    pub port: String,
    pub replica_options: Option<ReplicaOptions>,
}

/// The master that a replica follows.
#[derive(Debug, Clone, PartialEq, Eq)]
pub struct ReplicaOptions {
    pub master_host: String,
    pub master_port: String,
}

/// Why a list of arguments was not accepted.
#[derive(Debug, Clone, Copy, PartialEq, Eq)]
pub enum ArgsError {
    /// An argument is not one of the known options.
    UnexpectedOption,
    /// The last argument is an option, and its value is missing.
    MissingValue,
    /// The value of `--replicaof` has no space between host and port.
    MissingSeparator,
}

/// The model of `ReplicaOptions`.
pub struct ReplicaOptionsView {
    pub master_host: Seq<char>,
    pub master_port: Seq<char>,
}

/// The model of `Options`.
pub struct OptionsView {
    pub port: Seq<char>,
    pub replica_options: Option<ReplicaOptionsView>,
}

impl View for ReplicaOptions {
    type V = ReplicaOptionsView;

    open spec fn view(&self) -> ReplicaOptionsView {
        ReplicaOptionsView { master_host: self.master_host@, master_port: self.master_port@ }
    }
}

impl View for Options {
    type V = OptionsView;

    open spec fn view(&self) -> OptionsView {
        OptionsView {
            port: self.port@,
            replica_options: match self.replica_options {
                Some(replica) => Some(replica@),
                None => None,
            },
        }
    }
}

/// The first space of `text` stands at `i`.
pub open spec fn first_space_at(text: Seq<char>, i: int) -> bool {
    &&& 0 <= i < text.len()
    &&& text[i] == ' '
    &&& forall|j: int| 0 <= j < i ==> text[j] != ' '
}

/// The master named by the value of `--replicaof`: the host is what stands
/// before the first space, the port all that follows it. Nothing if the value
/// holds no space.
pub open spec fn split_master(text: Seq<char>) -> Option<ReplicaOptionsView> {
    if exists|i: int| first_space_at(text, i) {
        let i = choose|i: int| first_space_at(text, i);
        Some(
            ReplicaOptionsView {
                master_host: text.subrange(0, i),
                master_port: text.subrange(i + 1, text.len() as int),
            },
        )
    } else {
        None
    }
}

/// The options before any argument is read: port 6379, no master.
pub open spec fn default_options() -> OptionsView {
    OptionsView { port: "6379"@, replica_options: None }
}

/// What the arguments from position `i` on make of the options read so far.
/// Each option takes the argument after it as its value; a later option
/// replaces an earlier one of the same name; the first argument that cannot
/// be accepted decides the error.
pub open spec fn parse_from(args: Seq<Seq<char>>, i: int, so_far: OptionsView) -> Result<
    OptionsView,
    ArgsError,
>
    decreases args.len() - i,
{
    if i < 0 || i >= args.len() {
        Ok(so_far)
    } else if args[i] == "--port"@ {
        if i + 1 >= args.len() {
            Err(ArgsError::MissingValue)
        } else {
            parse_from(
                args,
                i + 2,
                OptionsView { port: args[i + 1], replica_options: so_far.replica_options },
            )
        }
    } else if args[i] == "--replicaof"@ {
        if i + 1 >= args.len() {
            Err(ArgsError::MissingValue)
        } else {
            match split_master(args[i + 1]) {
                Some(master) => parse_from(
                    args,
                    i + 2,
                    OptionsView { port: so_far.port, replica_options: Some(master) },
                ),
                None => Err(ArgsError::MissingSeparator),
            }
        }
    } else {
        Err(ArgsError::UnexpectedOption)
    }
}

/// What a full argument list means. The first argument is the name of the
/// program and is not read.
pub open spec fn parsed_args(args: Seq<Seq<char>>) -> Result<OptionsView, ArgsError> {
    parse_from(args, 1, default_options())
}

/// Splits the value of `--replicaof` at its first space.
fn split_host_port(text: &str) -> (r: Option<ReplicaOptions>)
    ensures
        match split_master(text@) {
            Some(master) => r matches Some(found) && found@ == master,
            None => r is None,
        },
{
    let len: usize = text.unicode_len();
    let mut i: usize = 0;
    while i < len
        invariant
            len == text@.len(),
            i <= len,
            forall|j: int| 0 <= j < i ==> text@[j] != ' ',
        decreases len - i,
    {
        if text.get_char(i) == ' ' {
            proof {
                let k = choose|k: int| first_space_at(text@, k);
                assert(first_space_at(text@, i as int));
                assert(first_space_at(text@, k));
                assert(k == i);
            }
            let master_host: String = text.substring_char(0, i).to_owned();
            let master_port: String = text.substring_char(i + 1, len).to_owned();
            return Some(ReplicaOptions { master_host, master_port });
        }
        i = i + 1;
    }
    None
}

/// Reads the options from the arguments of the program. The first argument
/// is the program's own name. `--port` and `--replicaof` each take the next
/// argument as their value.
pub fn parse_args(args: &Vec<String>) -> (r: Result<Options, ArgsError>)
    ensures
        match parsed_args(args.deep_view()) {
            Ok(options) => r matches Ok(found) && found@ == options,
            Err(error) => r matches Err(found) && found == error,
        },
{
    let port_flag: String = "--port".to_owned();
    let replica_flag: String = "--replicaof".to_owned();
    let mut options = Options { port: "6379".to_owned(), replica_options: None };
    let len: usize = args.len();
    let ghost all = args.deep_view();
    let mut i: usize = 1;
    while i < len
        invariant
            len == args@.len(),
            all == args.deep_view(),
            port_flag@ == "--port"@,
            replica_flag@ == "--replicaof"@,
            1 <= i,
            parse_from(all, i as int, options@) == parsed_args(all),
        decreases len - i,
    {
        let option: &String = &args[i];
        assert(all[i as int] == option@);
        if *option == port_flag {
            if i + 1 >= len {
                return Err(ArgsError::MissingValue);
            }
            assert(all[i + 1] == args@[i + 1]@);
            options.port = args[i + 1].clone();
        } else if *option == replica_flag {
            if i + 1 >= len {
                return Err(ArgsError::MissingValue);
            }
            assert(all[i + 1] == args@[i + 1]@);
            match split_host_port(args[i + 1].as_str()) {
                Some(master) => {
                    options.replica_options = Some(master);
                },
                None => {
                    return Err(ArgsError::MissingSeparator);
                },
            }
        } else {
            return Err(ArgsError::UnexpectedOption);
        }
        i = i + 2;
    }
    Ok(options)
}

} // verus!
