//! Decisions of the lint driver that do not depend on the compiler's data:
//! the message of the error found in the pattern files, the tool namespace it
//! registers, and the matches that survive a pattern operation.

use vstd::prelude::*;

verus! {

/// An error was found with the input pattern files.
#[derive(Debug, Clone, Copy, PartialEq, Eq)]
pub struct ErrorFound;

impl ErrorFound {
    /// The diagnostic message of this error.
    pub fn diag_message(&self) -> (r: String)
        ensures
            r@ == "An error was found with input RPL pattern(s)"@,
    {
        "An error was found with input RPL pattern(s)".to_owned()
    }
}

/// The tools registered with the compiler, by name: the default ones, then
/// `rpl` if it is not among them yet.
pub open spec fn spec_registered_tools(defaults: Seq<Seq<char>>) -> Seq<Seq<char>> {
    if defaults.contains("rpl"@) {
        defaults
    } else {
        defaults.push("rpl"@)
    }
}

pub open spec fn names_view(v: Seq<String>) -> Seq<Seq<char>> {
    v.map_values(|s: String| s@)
}

/// The tools registered with the compiler: the default ones, then `rpl` if it
/// is not among them yet.
pub fn registered_tools(defaults: &Vec<String>) -> (r: Vec<String>)
    ensures
        names_view(r@) == spec_registered_tools(names_view(defaults@)),
{
    let rpl = "rpl".to_owned();
    let ghost d = names_view(defaults@);
    let mut tools: Vec<String> = Vec::new();
    let mut found = false;
    for i in 0..defaults.len()
        invariant
            rpl@ == "rpl"@,
            d == names_view(defaults@),
            names_view(tools@) == d.take(i as int),
            found == d.take(i as int).contains("rpl"@),
    {
        let ghost before = d.take(i as int);
        assert(d.take(i + 1) =~= before.push(defaults@[i as int]@));
        if defaults[i] == rpl {
            found = true;
            assert(d.take(i + 1)[i as int] == "rpl"@);
        }
        proof {
            let next = d.take(i + 1);
            if next.contains("rpl"@) && !before.contains("rpl"@) {
                let k = choose|k: int| 0 <= k < next.len() && next[k] == "rpl"@;
                if k < i {
                    assert(before[k] == "rpl"@);
                }
            }
            if before.contains("rpl"@) {
                let k = choose|k: int| 0 <= k < before.len() && before[k] == "rpl"@;
                assert(d.take(i + 1)[k] == "rpl"@);
            }
        }
        let ghost old_tools = tools@;
        tools.push(defaults[i].clone());
        assert(names_view(tools@) =~= names_view(old_tools).push(defaults@[i as int]@));
    }
    assert(d.take(defaults@.len() as int) =~= d);
    if !found {
        let ghost old_tools = tools@;
        tools.push(rpl);
        assert(names_view(tools@) =~= names_view(old_tools).push("rpl"@));
    }
    tools
}

/// Registering the tools twice registers the same tools as registering them once.
pub proof fn lemma_registered_tools_idempotent(defaults: Seq<Seq<char>>)
    ensures
        spec_registered_tools(spec_registered_tools(defaults)) == spec_registered_tools(defaults),
{
    if !defaults.contains("rpl"@) {
        let once = defaults.push("rpl"@);
        assert(once[defaults.len() as int] == "rpl"@);
    }
}

/// The positive matches that no negative match equals, in order.
pub open spec fn spec_survivors(positive: Seq<u64>, negative: Seq<u64>) -> Seq<u64> {
    positive.filter(|m: u64| !negative.contains(m))
}

/// Whether `a` is `b` with some of its items left out, the others kept in
/// order.
pub open spec fn is_subsequence(a: Seq<u64>, b: Seq<u64>) -> bool
    decreases b.len(),
{
    if a.len() == 0 {
        true
    } else if b.len() == 0 {
        false
    } else {
        (a.last() == b.last() && is_subsequence(a.drop_last(), b.drop_last())) || is_subsequence(
            a,
            b.drop_last(),
        )
    }
}

/// The positive matches of a pattern operation that no negative match
/// equals, in order; matches are named by identifiers that are equal exactly
/// when the matches are.
pub fn subtract_negative_matches(positive: &Vec<u64>, negative: &Vec<u64>) -> (r: Vec<u64>)
    ensures
        r@ == spec_survivors(positive@, negative@),
{
    let mut kept: Vec<u64> = Vec::new();
    for i in 0..positive.len()
        invariant
            kept@ == spec_survivors(positive@.take(i as int), negative@),
    {
        let m = positive[i];
        let mut in_negative = false;
        for j in 0..negative.len()
            invariant
                in_negative == negative@.take(j as int).contains(m),
        {
            let ghost prefix = negative@.take(j as int);
            let ghost next = negative@.take(j + 1);
            assert(next =~= prefix.push(negative@[j as int]));
            if negative[j] == m {
                in_negative = true;
                assert(next[j as int] == m);
            }
            proof {
                if next.contains(m) && !prefix.contains(m) {
                    let k = choose|k: int| 0 <= k < next.len() && next[k] == m;
                    if k < j {
                        assert(prefix[k] == m);
                    }
                }
                if prefix.contains(m) {
                    let k = choose|k: int| 0 <= k < prefix.len() && prefix[k] == m;
                    assert(next[k] == m);
                }
            }
        }
        assert(negative@.take(negative@.len() as int) =~= negative@);
        proof {
            reveal_with_fuel(Seq::filter, 1);
            assert(positive@.take(i + 1).drop_last() =~= positive@.take(i as int));
        }
        if !in_negative {
            kept.push(m);
        }
    }
    assert(positive@.take(positive@.len() as int) =~= positive@);
    kept
}

proof fn lemma_subsequence_push_skip(a: Seq<u64>, b: Seq<u64>, y: u64)
    requires
        is_subsequence(a, b),
    ensures
        is_subsequence(a, b.push(y)),
{
    assert(b.push(y).drop_last() =~= b);
    if a.len() > 0 {
        assert(is_subsequence(a, b.push(y).drop_last()));
    }
}

proof fn lemma_subsequence_push_both(a: Seq<u64>, b: Seq<u64>, y: u64)
    requires
        is_subsequence(a, b),
    ensures
        is_subsequence(a.push(y), b.push(y)),
{
    assert(b.push(y).drop_last() =~= b);
    assert(a.push(y).drop_last() =~= a);
}

/// With no negative matches, every positive match survives, in order.
pub proof fn lemma_no_negatives_keep_all(positive: Seq<u64>)
    ensures
        spec_survivors(positive, Seq::empty()) == positive,
    decreases positive.len(),
{
    reveal_with_fuel(Seq::filter, 1);
    if positive.len() > 0 {
        lemma_no_negatives_keep_all(positive.drop_last());
        assert(!Seq::<u64>::empty().contains(positive.last()));
        assert(positive.drop_last().push(positive.last()) =~= positive);
    } else {
        assert(spec_survivors(positive, Seq::empty()) =~= positive);
    }
}

/// Removing the matches of more negative patterns keeps fewer positive
/// matches, in the same order: when every match in `negative` is also in
/// `more`, the matches that survive `more` are a subsequence of those that
/// survive `negative`.
pub proof fn lemma_more_negatives_keep_subsequence(positive: Seq<u64>, negative: Seq<u64>, more: Seq<u64>)
    requires
        forall|m: u64| negative.contains(m) ==> more.contains(m),
    ensures
        is_subsequence(spec_survivors(positive, more), spec_survivors(positive, negative)),
    decreases positive.len(),
{
    reveal_with_fuel(Seq::filter, 1);
    if positive.len() == 0 {
        assert(spec_survivors(positive, more).len() == 0);
    } else {
        let front = positive.drop_last();
        let x = positive.last();
        lemma_more_negatives_keep_subsequence(front, negative, more);
        let a = spec_survivors(front, more);
        let b = spec_survivors(front, negative);
        if more.contains(x) {
            if negative.contains(x) {
            } else {
                lemma_subsequence_push_skip(a, b, x);
            }
        } else {
            lemma_subsequence_push_both(a, b, x);
        }
    }
}

/// The matches that survive negative matches extended with more of them are
/// a subsequence of those that survive the original negative matches.
pub proof fn lemma_extended_negatives_keep_subsequence(
    positive: Seq<u64>,
    negative: Seq<u64>,
    extra: Seq<u64>,
)
    ensures
        is_subsequence(spec_survivors(positive, negative + extra), spec_survivors(positive, negative)),
{
    assert forall|m: u64| negative.contains(m) implies (negative + extra).contains(m) by {
        let k = choose|k: int| 0 <= k < negative.len() && negative[k] == m;
        assert((negative + extra)[k] == m);
    }
    lemma_more_negatives_keep_subsequence(positive, negative, negative + extra);
}

} // verus!
