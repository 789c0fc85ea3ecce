//! The first three challenges and the Maelstrom arguments of each.
use crate::fx::spelled;
use crate::text::push_word;
use vstd::prelude::*;

verus! {

/// Options to run one of the first challenges.
#[derive(Debug, Clone, PartialEq, Eq)]
pub struct Options {
    /// The challenge to build and run.
    pub challange: Challange,
    /// Maelstrom binary location.
    pub maelstrom_bin: String,
    /// Build and run the release target.
    pub release: bool,
}

/// The first challenges.
#[derive(Debug, Clone, Copy, PartialEq, Eq, Structural)]
pub enum Challange {
    /// Build and run echo challenge
    Echo,
    /// Build and run unique id challenge
    UniqueId,
    /// Build and run single broadcast challenge
    SingleBroadcast,
}

impl Challange {
    /// Name of the program that solves the challenge.
    pub open spec fn name(self) -> Seq<char> {
        match self {
            Challange::Echo => "echo"@,
            Challange::UniqueId => "unique_id"@,
            Challange::SingleBroadcast => "broadcast"@,
        }
    }

    /// The Maelstrom arguments that test the program at `bin_path`.
    pub open spec fn maelstrom_words(self, bin_path: Seq<char>) -> Seq<Seq<char>> {
        match self {
            Challange::Echo => seq![
                "test"@,
                "-w"@,
                "echo"@,
                "--bin"@,
                bin_path,
                "--node-count"@,
                "1"@,
                "--time-limit"@,
                "10"@,
            ],
            Challange::UniqueId => seq![
                "test"@,
                "-w"@,
                "unique-ids"@,
                "--bin"@,
                bin_path,
                "--time-limit"@,
                "30"@,
                "--rate"@,
                "1000"@,
                "--node-count"@,
                "3"@,
                "--availability"@,
                "total"@,
                "--nemesis"@,
                "partition"@,
            ],
            Challange::SingleBroadcast => seq![
                "test"@,
                "-w"@,
                "broadcast"@,
                "--bin"@,
                bin_path,
                "--time-limit"@,
                "20"@,
                "--rate"@,
                "10"@,
                "--node-count"@,
                "1"@,
            ],
        }
    }

    /// Get name of the challenge program.
    pub fn get_name(&self) -> (name: String)
        ensures
            name@ == self.name(),
    {
        match self {
            Challange::Echo => "echo",
            Challange::UniqueId => "unique_id",
            Challange::SingleBroadcast => "broadcast",
        }.to_owned()
    }
}

/// Get the Maelstrom arguments of the challenge, for the program at
/// `bin_path`.
pub fn get_maelstrom_args(challange: &Challange, bin_path: String) -> (args: Vec<String>)
    ensures
        spelled(args@) == challange.maelstrom_words(bin_path@),
{
    let mut args: Vec<String> = Vec::new();
    assert(spelled(args@) =~= Seq::<Seq<char>>::empty());
    push_word(&mut args, "test");
    push_word(&mut args, "-w");
    match challange {
        Challange::Echo => {
            push_word(&mut args, "echo");
            push_word(&mut args, "--bin");
            push_word(&mut args, bin_path.as_str());
            push_word(&mut args, "--node-count");
            push_word(&mut args, "1");
            push_word(&mut args, "--time-limit");
            push_word(&mut args, "10");
        },
        Challange::UniqueId => {
            push_word(&mut args, "unique-ids");
            push_word(&mut args, "--bin");
            push_word(&mut args, bin_path.as_str());
            push_word(&mut args, "--time-limit");
            push_word(&mut args, "30");
            push_word(&mut args, "--rate");
            push_word(&mut args, "1000");
            push_word(&mut args, "--node-count");
            push_word(&mut args, "3");
            push_word(&mut args, "--availability");
            push_word(&mut args, "total");
            push_word(&mut args, "--nemesis");
            push_word(&mut args, "partition");
        },
        Challange::SingleBroadcast => {
            push_word(&mut args, "broadcast");
            push_word(&mut args, "--bin");
            push_word(&mut args, bin_path.as_str());
            push_word(&mut args, "--time-limit");
            push_word(&mut args, "20");
            push_word(&mut args, "--rate");
            push_word(&mut args, "10");
            push_word(&mut args, "--node-count");
            push_word(&mut args, "1");
        },
    }
    assert(spelled(args@) =~= challange.maelstrom_words(bin_path@));
    args
}

} // verus!
