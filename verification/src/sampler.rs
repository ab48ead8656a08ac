//! The command lines with which the sampling utility is run.
//!
//! The utility reads an archive and prints the values of the metrics it is asked
//! for as comma-separated rows, a header row first. It is asked in two ways: for one
//! sample, to find out whether metrics can be sampled at all, and for the whole
//! archive at one sample per second.

use vstd::prelude::*;
use crate::text::texts;

verus! {

/// The arguments that ask for one sample of `names` from the archive `archive`:
/// comma-separated output, metrics that the archive does not know passed over.
pub open spec fn probe_args(archive: Seq<char>, names: Seq<Seq<char>>) -> Seq<Seq<char>> {
    seq!["-a"@, archive, "-s"@, "1"@, "-o"@, "csv"@, "--ignore-unknown"@] + names
}

/// The arguments that ask for all samples of `metrics` from the archive `archive`,
/// one per second: comma-separated output without units, metrics that the archive
/// does not know passed over.
pub open spec fn stream_args(archive: Seq<char>, metrics: Seq<Seq<char>>) -> Seq<Seq<char>> {
    seq!["-a"@, archive, "-t"@, "1sec"@, "-o"@, "csv"@, "-U"@, "--ignore-unknown"@] + metrics
}

/// Puts the names behind the arguments that are there already.
fn with_names(args: Vec<String>, names: &[String]) -> (all: Vec<String>)
    ensures
        texts(all@) == texts(args@) + texts(names@),
{
    let ghost first = texts(args@);
    let mut all = args;
    let mut i: usize = 0;
    proof {
        assert(texts(names@).take(0) == Seq::<Seq<char>>::empty());
        assert(first + Seq::<Seq<char>>::empty() == first);
    }
    while i < names.len()
        invariant
            i <= names.len(),
            texts(all@) == first + texts(names@).take(i as int),
        decreases names.len() - i,
    {
        let name = names[i].clone();
        proof {
            assert(texts(all@.push(name)) == texts(all@).push(name@));
            assert(texts(names@).take(i + 1) == texts(names@).take(i as int).push(name@));
            assert((first + texts(names@).take(i as int)).push(name@) == first + texts(
                names@,
            ).take(i as int).push(name@));
        }
        all.push(name);
        i += 1;
    }
    proof {
        assert(texts(names@).take(names@.len() as int) == texts(names@));
    }
    all
}

/// The arguments for a probe: one sample of `names` from the archive.
pub fn probe_arguments(archive: &str, names: &[String]) -> (args: Vec<String>)
    ensures
        texts(args@) == probe_args(archive@, texts(names@)),
{
    let mut args: Vec<String> = Vec::new();
    args.push("-a".to_owned());
    args.push(archive.to_owned());
    args.push("-s".to_owned());
    args.push("1".to_owned());
    args.push("-o".to_owned());
    args.push("csv".to_owned());
    args.push("--ignore-unknown".to_owned());
    proof {
        assert(texts(args@) == seq![
            "-a"@,
            archive@,
            "-s"@,
            "1"@,
            "-o"@,
            "csv"@,
            "--ignore-unknown"@,
        ]);
    }
    with_names(args, names)
}

/// The arguments for the stream of all samples of `metrics` from the archive.
pub fn stream_arguments(archive: &str, metrics: &[String]) -> (args: Vec<String>)
    ensures
        texts(args@) == stream_args(archive@, texts(metrics@)),
{
    let mut args: Vec<String> = Vec::new();
    args.push("-a".to_owned());
    args.push(archive.to_owned());
    args.push("-t".to_owned());
    args.push("1sec".to_owned());
    args.push("-o".to_owned());
    args.push("csv".to_owned());
    args.push("-U".to_owned());
    args.push("--ignore-unknown".to_owned());
    proof {
        assert(texts(args@) == seq![
            "-a"@,
            archive@,
            "-t"@,
            "1sec"@,
            "-o"@,
            "csv"@,
            "-U"@,
            "--ignore-unknown"@,
        ]);
    }
    with_names(args, metrics)
}

} // verus!
