//! The challenges and the command line that runs each of them under
//! Maelstrom.
use crate::fx::spelled;
use crate::text::decimal;
use crate::text::decimal_of;
use crate::text::kebab;
use crate::text::kebab_of;
use crate::text::push_word;
use crate::text::push_words;
use vstd::prelude::*;
use vstd::string::StringExecFns;

verus! {

/// Options to run a challenge.
#[derive(Debug, Clone, PartialEq, Eq)]
pub struct RunOptions {
    /// The challenge to build and run.
    pub challange: Challange,
    /// Maelstrom binary location.
    pub maelstrom_bin: String,
    /// Build and run the release target.
    pub release: bool,
    /// Extra arguments to be passed to Maelstrom.
    pub extra_args: Vec<String>,
}

/// Challenges from Gossip Glomers.
#[derive(Debug, Clone, Copy, PartialEq, Eq, Structural)]
pub enum Challange {
    /// Echo
    Echo,
    /// Unique id
    UniqueIds,
    /// Single node broadcast
    SingleBroadcast,
    /// Multi node broadcast
    MultiBroadcast,
    /// Faulty node broadcast
    FaultyBroadcast,
    /// Efficient broadcast
    EfficientBroadcast,
    /// Efficient broadcast two
    EfficientBroadcast2,
    /// Grow only counter
    GrowOnlyCounter,
}

/// Upper bounds, each exclusive, on what Maelstrom measured in a run.
#[derive(Debug, Clone, Copy, PartialEq, Eq, Structural)]
pub struct Limits {
    /// Messages between servers per operation.
    pub messages_per_op: u32,
    /// Median of the stable latencies, in milliseconds.
    pub median_latency: i64,
    /// Maximum of the stable latencies, in milliseconds.
    pub maximum_latency: i64,
}

impl Challange {
    /// Name of the program that solves the challenge.
    pub open spec fn name(self) -> Seq<char> {
        match self {
            Challange::Echo => "echo"@,
            Challange::UniqueIds => "unique_ids"@,
            Challange::SingleBroadcast
            | Challange::MultiBroadcast
            | Challange::FaultyBroadcast
            | Challange::EfficientBroadcast
            | Challange::EfficientBroadcast2 => "broadcast"@,
            Challange::GrowOnlyCounter => "g_counter"@,
        }
    }

    /// Number of nodes that the challenge runs.
    pub open spec fn nodes(self) -> nat {
        match self {
            Challange::Echo | Challange::SingleBroadcast => 1,
            Challange::UniqueIds | Challange::GrowOnlyCounter => 3,
            Challange::MultiBroadcast | Challange::FaultyBroadcast => 5,
            Challange::EfficientBroadcast | Challange::EfficientBroadcast2 => 25,
        }
    }

    /// Seconds that the challenge runs.
    pub open spec fn seconds(self) -> nat {
        match self {
            Challange::Echo => 10,
            Challange::UniqueIds => 30,
            _ => 20,
        }
    }

    /// The words that the challenge adds to the command line after the extra
    /// arguments.
    pub open spec fn settings(self) -> Seq<Seq<char>> {
        match self {
            Challange::Echo => seq![],
            Challange::UniqueIds => seq![
                "--nemesis"@,
                "partition"@,
                "--rate"@,
                decimal_of(1000),
                "--availability"@,
                "total"@,
            ],
            Challange::SingleBroadcast | Challange::MultiBroadcast => seq![
                "--rate"@,
                decimal_of(10),
            ],
            Challange::FaultyBroadcast => seq![
                "--rate"@,
                decimal_of(10),
                "--nemesis"@,
                "partition"@,
            ],
            Challange::EfficientBroadcast => seq![
                "--rate"@,
                decimal_of(100),
                "--latency"@,
                decimal_of(100),
                "--topology"@,
                "tree4"@,
            ],
            Challange::EfficientBroadcast2 => seq![
                "--rate"@,
                decimal_of(100),
                "--latency"@,
                decimal_of(100),
            ],
            Challange::GrowOnlyCounter => seq![
                "--rate"@,
                decimal_of(100),
                "--nemesis"@,
                "partition"@,
            ],
        }
    }

    /// The environment that the challenge sets for the run.
    pub open spec fn environment(self) -> Seq<(Seq<char>, Seq<char>)> {
        match self {
            Challange::EfficientBroadcast2 => seq![("FORCE_TICK"@, "false"@)],
            _ => seq![],
        }
    }

    /// The bounds that the run's measurements must stay under, where the
    /// challenge sets any.
    pub open spec fn bounds(self) -> Option<Limits> {
        match self {
            Challange::EfficientBroadcast => Some(
                Limits { messages_per_op: 30, median_latency: 400, maximum_latency: 600 },
            ),
            Challange::EfficientBroadcast2 => Some(
                Limits { messages_per_op: 20, median_latency: 1000, maximum_latency: 2000 },
            ),
            _ => None,
        }
    }

    /// Get name of the challenge program.
    pub fn get_name(&self) -> (name: String)
        ensures
            name@ == self.name(),
    {
        match self {
            Challange::Echo => "echo",
            Challange::UniqueIds => "unique_ids",
            Challange::SingleBroadcast
            | Challange::MultiBroadcast
            | Challange::FaultyBroadcast
            | Challange::EfficientBroadcast
            | Challange::EfficientBroadcast2 => "broadcast",
            Challange::GrowOnlyCounter => "g_counter",
        }.to_owned()
    }

    /// The bounds that the run's measurements must stay under, where the
    /// challenge sets any.
    pub fn limits(&self) -> (limits: Option<Limits>)
        ensures
            limits == self.bounds(),
    {
        match self {
            Challange::EfficientBroadcast => Some(
                Limits { messages_per_op: 30, median_latency: 400, maximum_latency: 600 },
            ),
            Challange::EfficientBroadcast2 => Some(
                Limits { messages_per_op: 20, median_latency: 1000, maximum_latency: 2000 },
            ),
            _ => None,
        }
    }
}

/// The words after `cargo` that build the program `bin_name`.
pub open spec fn build_words(release: bool, bin_name: Seq<char>) -> Seq<Seq<char>> {
    if release {
        seq!["build"@, "--bin"@, bin_name, "--release"@]
    } else {
        seq!["build"@, "--bin"@, bin_name]
    }
}

/// Where cargo puts the program `bin_name`, below `target_dir`.
pub open spec fn built_at(target_dir: Seq<char>, release: bool, bin_name: Seq<char>) -> Seq<char> {
    target_dir + "/"@ + (if release {
        "release"@
    } else {
        "debug"@
    }) + "/"@ + bin_name
}

/// The words after `cargo` that build the program `bin_name`, for the release
/// profile if `release` is set.
pub fn build_args(release: bool, bin_name: &str) -> (args: Vec<String>)
    ensures
        spelled(args@) == build_words(release, bin_name@),
{
    let mut args: Vec<String> = Vec::new();
    assert(spelled(args@) =~= Seq::<Seq<char>>::empty());
    push_word(&mut args, "build");
    push_word(&mut args, "--bin");
    push_word(&mut args, bin_name);
    if release {
        push_word(&mut args, "--release");
    }
    assert(spelled(args@) =~= build_words(release, bin_name@));
    args
}

/// Where cargo puts the program `bin_name`: below `target_dir`, in the
/// directory of the profile.
pub fn binary_path(target_dir: &str, release: bool, bin_name: &str) -> (path: String)
    ensures
        path@ == built_at(target_dir@, release, bin_name@),
{
    let profile = if release {
        "release"
    } else {
        "debug"
    };
    target_dir.to_owned().concat("/").concat(profile).concat("/").concat(bin_name)
}

/// A Maelstrom command line: the program, its arguments and the environment
/// to run it in.
#[derive(Debug, Clone, PartialEq, Eq)]
pub struct MaelStromCommand {
    /// The Maelstrom binary.
    pub program: String,
    /// The arguments, in order.
    pub args: Vec<String>,
    /// Environment variables to set, as name and value.
    pub envs: Vec<(String, String)>,
}

impl MaelStromCommand {
    /// The arguments, as the names they spell.
    pub open spec fn words(self) -> Seq<Seq<char>> {
        spelled(self.args@)
    }

    /// The environment, as the names and values it spells.
    pub open spec fn variables(self) -> Seq<(Seq<char>, Seq<char>)> {
        self.envs@.map_values(|e: (String, String)| (e.0@, e.1@))
    }

    /// The words that every test command starts with.
    pub open spec fn test_words(
        bin_path: Seq<char>,
        bin_name: Seq<char>,
        node_count: nat,
        time_limit: nat,
        extra_args: Seq<Seq<char>>,
    ) -> Seq<Seq<char>> {
        seq![
            "test"@,
            "-w"@,
            kebab_of(bin_name),
            "--bin"@,
            bin_path,
            "--node-count"@,
            decimal_of(node_count),
            "--time-limit"@,
            decimal_of(time_limit),
        ] + extra_args
    }

    /// Creates the command that tests the program at `bin_path` with the
    /// workload named after `bin_name`, in kebab case.
    pub fn new(
        maelstrom_bin: &str,
        bin_path: &str,
        bin_name: &str,
        node_count: usize,
        time_limit: usize,
        extra_args: &Vec<String>,
    ) -> (command: Self)
        ensures
            command.program@ == maelstrom_bin@,
            command.words() == Self::test_words(
                bin_path@,
                bin_name@,
                node_count as nat,
                time_limit as nat,
                spelled(extra_args@),
            ),
            command.variables() == Seq::<(Seq<char>, Seq<char>)>::empty(),
    {
        let mut args: Vec<String> = Vec::new();
        assert(spelled(args@) =~= Seq::<Seq<char>>::empty());
        push_word(&mut args, "test");
        push_word(&mut args, "-w");
        let workload = kebab(bin_name);
        push_word(&mut args, workload.as_str());
        push_word(&mut args, "--bin");
        push_word(&mut args, bin_path);
        push_word(&mut args, "--node-count");
        let nodes = decimal(node_count);
        push_word(&mut args, nodes.as_str());
        push_word(&mut args, "--time-limit");
        let seconds = decimal(time_limit);
        push_word(&mut args, seconds.as_str());
        push_words(&mut args, extra_args);
        let command = MaelStromCommand {
            program: maelstrom_bin.to_owned(),
            args,
            envs: Vec::new(),
        };
        assert(command.words() =~= Self::test_words(
            bin_path@,
            bin_name@,
            node_count as nat,
            time_limit as nat,
            spelled(extra_args@),
        ));
        assert(command.variables() =~= Seq::<(Seq<char>, Seq<char>)>::empty());
        command
    }

    /// Sets an environment variable for Maelstrom and the program.
    pub fn env(self, key: &str, value: &str) -> (command: Self)
        ensures
            command.program@ == self.program@,
            command.words() == self.words(),
            command.variables() == self.variables().push((key@, value@)),
    {
        let mut command = self;
        command.envs.push((key.to_owned(), value.to_owned()));
        assert(command.variables() =~= self.variables().push((key@, value@)));
        command
    }

    /// Appends an option and its value.
    fn option(self, name: &str, value: &str) -> (command: Self)
        ensures
            command.program@ == self.program@,
            command.words() == self.words() + seq![name@, value@],
            command.variables() == self.variables(),
    {
        let mut command = self;
        push_word(&mut command.args, name);
        push_word(&mut command.args, value);
        assert(command.words() =~= self.words() + seq![name@, value@]);
        command
    }

    /// Adds network partitions.
    pub fn partition(self) -> (command: Self)
        ensures
            command.program@ == self.program@,
            command.words() == self.words() + seq!["--nemesis"@, "partition"@],
            command.variables() == self.variables(),
    {
        self.option("--nemesis", "partition")
    }

    /// Asks for total availability.
    pub fn total_availability(self) -> (command: Self)
        ensures
            command.program@ == self.program@,
            command.words() == self.words() + seq!["--availability"@, "total"@],
            command.variables() == self.variables(),
    {
        self.option("--availability", "total")
    }

    /// Sets the rate of requests per second.
    pub fn rate(self, rate: usize) -> (command: Self)
        ensures
            command.program@ == self.program@,
            command.words() == self.words() + seq!["--rate"@, decimal_of(rate as nat)],
            command.variables() == self.variables(),
    {
        let value = decimal(rate);
        self.option("--rate", value.as_str())
    }

    /// Sets the latency of the network, in milliseconds.
    pub fn latency(self, latency: usize) -> (command: Self)
        ensures
            command.program@ == self.program@,
            command.words() == self.words() + seq!["--latency"@, decimal_of(latency as nat)],
            command.variables() == self.variables(),
    {
        let value = decimal(latency);
        self.option("--latency", value.as_str())
    }

    /// Sets the topology that Maelstrom tells the nodes.
    pub fn topology(self, topology: &str) -> (command: Self)
        ensures
            command.program@ == self.program@,
            command.words() == self.words() + seq!["--topology"@, topology@],
            command.variables() == self.variables(),
    {
        self.option("--topology", topology)
    }
}

/// The command that runs the challenge of `opts`: the test of the program at
/// `bin_path`, which was built for it, with the challenge's number of nodes and
/// duration, the extra arguments, and then the challenge's own settings and
/// environment.
pub fn run(opts: &RunOptions, bin_path: &str) -> (command: MaelStromCommand)
    ensures
        command.program@ == opts.maelstrom_bin@,
        command.words() == MaelStromCommand::test_words(
            bin_path@,
            opts.challange.name(),
            opts.challange.nodes(),
            opts.challange.seconds(),
            spelled(opts.extra_args@),
        ) + opts.challange.settings(),
        command.variables() == opts.challange.environment(),
{
    let name = opts.challange.get_name();
    let bin_name = name.as_str();
    let maelstrom_bin = opts.maelstrom_bin.as_str();
    let extra_args = &opts.extra_args;
    let command = match opts.challange {
        Challange::Echo => MaelStromCommand::new(
            maelstrom_bin,
            bin_path,
            bin_name,
            1,
            10,
            extra_args,
        ),
        Challange::UniqueIds => MaelStromCommand::new(
            maelstrom_bin,
            bin_path,
            bin_name,
            3,
            30,
            extra_args,
        ).partition().rate(1000).total_availability(),
        Challange::SingleBroadcast => MaelStromCommand::new(
            maelstrom_bin,
            bin_path,
            bin_name,
            1,
            20,
            extra_args,
        ).rate(10),
        Challange::MultiBroadcast => MaelStromCommand::new(
            maelstrom_bin,
            bin_path,
            bin_name,
            5,
            20,
            extra_args,
        ).rate(10),
        Challange::FaultyBroadcast => MaelStromCommand::new(
            maelstrom_bin,
            bin_path,
            bin_name,
            5,
            20,
            extra_args,
        ).rate(10).partition(),
        Challange::EfficientBroadcast => MaelStromCommand::new(
            maelstrom_bin,
            bin_path,
            bin_name,
            25,
            20,
            extra_args,
        ).rate(100).latency(100).topology("tree4"),
        Challange::EfficientBroadcast2 => MaelStromCommand::new(
            maelstrom_bin,
            bin_path,
            bin_name,
            25,
            20,
            extra_args,
        ).env("FORCE_TICK", "false").rate(100).latency(100),
        Challange::GrowOnlyCounter => MaelStromCommand::new(
            maelstrom_bin,
            bin_path,
            bin_name,
            3,
            20,
            extra_args,
        ).rate(100).partition(),
    };
    assert(command.words() =~= MaelStromCommand::test_words(
        bin_path@,
        opts.challange.name(),
        opts.challange.nodes(),
        opts.challange.seconds(),
        spelled(opts.extra_args@),
    ) + opts.challange.settings());
    assert(command.variables() =~= opts.challange.environment());
    command
}

} // verus!
