use vstd::prelude::*;

verus! {

broadcast use vstd::string::group_string_axioms;

/// The argument names a file: it does not start with `-`.
pub open spec fn names_file(arg: Seq<char>) -> bool {
    !(arg.len() > 0 && arg[0] == '-')
}

/// The file to open from a command line: the first argument after the
/// program's name that does not start with `-`.
pub open spec fn file_argument(args: Seq<Seq<char>>) -> Option<Seq<char>>
    decreases args.len(),
{
    if args.len() <= 1 {
        None
    } else {
        match file_argument(args.drop_last()) {
            Some(f) => Some(f),
            None => if names_file(args.last()) {
                Some(args.last())
            } else {
                None
            },
        }
    }
}

fn starts_with_dash(arg: &str) -> (r: bool)
    ensures
        r == !names_file(arg@),
{
    let mut it = arg.chars();
    match it.next() {
        Some(c) => c == '-',
        None => false,
    }
}

/// The file named on the command line `args` (the program's name first), if any.
pub fn command_line_file(args: &Vec<String>) -> (r: Option<String>)
    ensures
        (match r {
            Some(f) => Some(f@),
            None => None,
        }) == file_argument(args@.map_values(|a: String| a@)),
{
    let ghost v = args@.map_values(|a: String| a@);
    if args.len() <= 1 {
        return None;
    }
    let mut i: usize = 1;
    assert(v.take(1).len() == 1);
    while i < args.len()
        invariant
            1 <= i <= args.len(),
            v == args@.map_values(|a: String| a@),
            file_argument(v.take(i as int)) is None,
        decreases args.len() - i,
    {
        assert(v.take(i + 1).drop_last() =~= v.take(i as int));
        assert(v[i as int] == args@[i as int]@);
        if !starts_with_dash(args[i].as_str()) {
            assert(file_argument(v.take(i + 1)) == Some(v[i as int]));
            proof {
                lemma_file_argument_prefix(v, i as int + 1);
            }
            return Some(args[i].clone());
        }
        i += 1;
    }
    assert(v.take(args.len() as int) =~= v);
    None
}

proof fn lemma_file_argument_prefix(v: Seq<Seq<char>>, k: int)
    requires
        0 <= k <= v.len(),
        file_argument(v.take(k)) is Some,
    ensures
        file_argument(v) == file_argument(v.take(k)),
    decreases v.len() - k,
{
    if k < v.len() {
        assert(v.take(k + 1).drop_last() =~= v.take(k));
        lemma_file_argument_prefix(v, k + 1);
    } else {
        assert(v.take(k) =~= v);
    }
}

} // verus!
