//! Reading `dpkg -S` output: which package owns which path.
use vstd::prelude::*;

use crate::domain::StringMap;
use crate::process::{CommandOutput, CommandSpec, RunError};
use crate::text::{
    chars_of, find_in, first_occurrence, lemma_split_nonempty, line_ranges, lines, occurs_at,
    split, split_ranges, starts_with, starts_with_exec, string_of, strs_view, trim, trim_range,
    CharClass,
};

verus! {

/// The path and first owning package a `dpkg -S` line names: `pkg: /path`
/// or `pkg1, pkg2: /path`, split at the first ": ". Lines whose path is not
/// absolute or whose first package is empty name nothing.
pub open spec fn search_line(line: Seq<char>) -> Option<(Seq<char>, Seq<char>)> {
    match first_occurrence(line, ": "@) {
        None => None,
        Some(i) => {
            let path = trim(line.subrange(i + 2, line.len() as int));
            let first = trim(split(line.subrange(0, i), CharClass::Exactly(','))[0]);
            if !starts_with(path, "/"@) || first.len() == 0 {
                None
            } else {
                Some((path, first))
            }
        },
    }
}

pub open spec fn owners_upto(ls: Seq<Seq<char>>, n: int) -> Map<Seq<char>, Seq<char>>
    decreases n,
{
    if n <= 0 {
        Map::empty()
    } else {
        match search_line(ls[n - 1]) {
            Some((path, package)) => owners_upto(ls, n - 1).insert(path, package),
            None => owners_upto(ls, n - 1),
        }
    }
}

/// The path-to-owner table `dpkg -S` output gives; a later line for the same path wins.
pub open spec fn spec_parse_dpkg_search(output: Seq<char>) -> Map<Seq<char>, Seq<char>> {
    owners_upto(lines(output), lines(output).len() as int)
}

fn search_line_exec(v: &Vec<char>, lo: usize, hi: usize) -> (r: Option<(String, String)>)
    requires
        lo <= hi <= v@.len(),
    ensures
        r matches Some((p, q)) ==> search_line(v@.subrange(lo as int, hi as int)) == Some((p@, q@)),
        r is None ==> search_line(v@.subrange(lo as int, hi as int)) is None,
{
    let ghost line = v@.subrange(lo as int, hi as int);
    let sep = chars_of(": ");
    proof {
        reveal_strlit(": ");
    }
    match find_in(v, lo, hi, &sep) {
        None => None,
        Some(i) => {
            proof {
                assert(occurs_at(line, sep@, i as int));
            }
            let (pa, pb) = trim_range(v, lo + i + 2, hi, CharClass::Whitespace);
            let slash = chars_of("/");
            let parts = split_ranges(v, lo, lo + i, CharClass::Exactly(','));
            proof {
                assert(v@.subrange(lo + i + 2, hi as int) =~= line.subrange(i + 2, line.len() as int));
                assert(v@.subrange(lo as int, lo + i) =~= line.subrange(0, i as int));
                lemma_split_nonempty(line.subrange(0, i as int), CharClass::Exactly(','));
            }
            let (fa, fb) = trim_range(v, parts[0].0, parts[0].1, CharClass::Whitespace);
            if !starts_with_exec(v, pa, pb, &slash) || fa == fb {
                None
            } else {
                Some((string_of(v, pa, pb), string_of(v, fa, fb)))
            }
        },
    }
}

/// Parses batched `dpkg -S` output into a table from path to the first
/// package that claims it. Lines that are not `packages: /path` are ignored.
pub fn parse_dpkg_search(output: &str) -> (owners: StringMap)
    ensures
        owners@ == spec_parse_dpkg_search(output@),
{
    let v = chars_of(output);
    let ls = line_ranges(&v, 0, v.len());
    let ghost ln = lines(output@);
    proof {
        assert(v@.subrange(0, v@.len() as int) =~= output@);
    }
    let mut owners = StringMap::new();
    let mut j: usize = 0;
    while j < ls.len()
        invariant
            0 <= j <= ls@.len() == ln.len(),
            ln == lines(output@),
            forall|i: int|
                0 <= i < ls@.len() ==> {
                    &&& (#[trigger] ls@[i]).0 <= ls@[i].1 <= v@.len()
                    &&& v@.subrange(ls@[i].0 as int, ls@[i].1 as int) == ln[i]
                },
            owners@ == owners_upto(ln, j as int),
        decreases ls@.len() - j,
    {
        match search_line_exec(&v, ls[j].0, ls[j].1) {
            Some((p, q)) => {
                owners.insert(p, q);
            },
            None => {},
        }
        j += 1;
    }
    owners
}

/// The one batched `dpkg -S` command that looks up every path at once, or
/// `None` when there are no paths: then nothing is run and nothing is owned.
pub fn search_command(dpkg_bin: &str, paths: &Vec<String>) -> (c: Option<CommandSpec>)
    ensures
        c is None <==> paths@.len() == 0,
        c matches Some(cmd) ==> cmd.program@ == dpkg_bin@ && strs_view(cmd.args@) == seq!["-S"@]
            + strs_view(paths@),
{
    if paths.len() == 0 {
        None
    } else {
        let copy = crate::domain::clone_strings(paths);
        proof {
            reveal_strlit("-S");
        }
        let cmd = CommandSpec::new(dpkg_bin).arg("-S").args(copy);
        proof {
            assert(seq![]+ seq!["-S"@] =~= seq!["-S"@]);
        }
        Some(cmd)
    }
}

/// The ownership table from how `dpkg -S` ran, whatever its exit status
/// (it exits non-zero when any path is unowned): its output parsed, or the
/// error passed on.
pub fn owners_from_run(run: Result<CommandOutput, RunError>) -> (r: Result<StringMap, RunError>)
    ensures
        run matches Ok(o) ==> r matches Ok(m) && m@ == spec_parse_dpkg_search(o.stdout@),
        run matches Err(e) ==> r == Err::<StringMap, RunError>(e),
{
    match run {
        Ok(output) => Ok(parse_dpkg_search(output.stdout.as_str())),
        Err(e) => Err(e),
    }
}

} // verus!
