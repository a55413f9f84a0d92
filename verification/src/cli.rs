//! Command-line lookup: the value that follows a flag.

use vstd::prelude::*;

verus! {

/// Two strings with the same characters.
pub fn same_text(a: &str, b: &str) -> (r: bool)
    ensures
        r == (a@ == b@),
{
    let n = a.unicode_len();
    let m = b.unicode_len();
    if n != m {
        return false;
    }
    let mut i: usize = 0;
    while i < n
        invariant
            n == a@.len(),
            m == b@.len(),
            n == m,
            i <= n,
            forall|j: int| 0 <= j < i ==> a@[j] == b@[j],
        decreases n - i,
    {
        if a.get_char(i) != b.get_char(i) {
            return false;
        }
        i = i + 1;
    }
    assert(a@ =~= b@);
    true
}

/// Index of the first argument equal to `flag`, if any.
pub open spec fn first_match(args: Seq<String>, flag: Seq<char>) -> Option<int>
    decreases args.len(),
{
    if args.len() == 0 {
        None
    } else if args.last()@ == flag && first_match(args.drop_last(), flag) is None {
        Some(args.len() - 1)
    } else {
        first_match(args.drop_last(), flag)
    }
}

/// The argument after the first occurrence of `flag` (`--seed 1` gives `1`);
/// `None` when the flag is absent or is the last argument.
pub fn arg_value<'a>(args: &'a [String], flag: &str) -> (r: Option<&'a str>)
    ensures
        match first_match(args@, flag@) {
            None => r is None,
            Some(i) => if i + 1 < args@.len() {
                r is Some && r->0@ == args@[i + 1]@
            } else {
                r is None
            },
        },
{
    let n = args.len();
    let mut i: usize = 0;
    while i < n
        invariant
            n == args@.len(),
            i <= n,
            first_match(args@.take(i as int), flag@) is None,
        decreases n - i,
    {
        proof {
            assert(args@.take(i + 1).drop_last() =~= args@.take(i as int));
        }
        if same_text(args[i].as_str(), flag) {
            proof {
                lemma_first_match_prefix(args@, flag@, i + 1);
            }
            if i + 1 < n {
                return Some(args[i + 1].as_str());
            } else {
                return None;
            }
        }
        i = i + 1;
    }
    assert(args@.take(n as int) =~= args@);
    None
}

/// A match within a prefix is the first match of the whole sequence.
proof fn lemma_first_match_prefix(args: Seq<String>, flag: Seq<char>, k: int)
    requires
        0 <= k <= args.len(),
        first_match(args.take(k), flag) is Some,
    ensures
        first_match(args, flag) == first_match(args.take(k), flag),
    decreases args.len() - k,
{
    if k < args.len() {
        let t = args.take(k + 1);
        assert(t.drop_last() =~= args.take(k));
        lemma_first_match_prefix(args, flag, k + 1);
    } else {
        assert(args.take(k) =~= args);
    }
}

} // verus!
