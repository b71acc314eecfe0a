//! The correspondence between the meta variables and labels of a pattern
//! (the destination) and those of a pattern it refers to (the source).

use vstd::prelude::*;

verus! {

/// The non-local meta variables of a pattern, by name, in index order.
#[derive(Debug)]
pub struct NonLocalMetaVars {
    pub ty_vars: Vec<String>,
    pub const_vars: Vec<String>,
    pub place_vars: Vec<String>,
}

/// What a meta variable assignment assigns to.
#[derive(Debug)]
pub enum AssignTarget {
    /// A label of the destination pattern.
    Label(String),
    /// A meta variable of the destination pattern.
    Var(String),
    /// Any other assignment target.
    Other,
}

/// One assignment `source = target` of a pattern reference.
#[derive(Debug)]
pub struct MetaVariableAssign {
    pub source: String,
    pub target: AssignTarget,
}

/// The assignments of a pattern reference, if it has any.
#[derive(Debug)]
pub struct MetaVariableAssignList {
    pub assigns: Option<Vec<MetaVariableAssign>>,
}

/// The correspondence from the destination pattern to the source pattern:
/// keys are indices and names in the destination, values in the source.
#[derive(Debug)]
pub struct MatchedMap {
    pub ty_vars: Vec<usize>,
    pub const_vars: Vec<usize>,
    pub place_vars: Vec<usize>,
    /// Destination label and source label, in the order they are assigned.
    pub labels: Vec<(String, String)>,
}

/// The first index at which `names` holds `name`.
pub open spec fn first_index(names: Seq<String>, name: Seq<char>) -> Option<int>
    decreases names.len(),
{
    if names.len() == 0 {
        None
    } else {
        match first_index(names.drop_last(), name) {
            Some(k) => Some(k),
            None => if names.last()@ == name {
                Some(names.len() - 1)
            } else {
                None
            },
        }
    }
}

/// Every destination name is also a source name.
pub open spec fn all_found(target: Seq<String>, source: Seq<String>) -> bool {
    forall|i: int| 0 <= i < target.len() ==> first_index(source, (#[trigger] target[i])@) is Some
}

/// For each destination variable, the index of the first source variable of
/// the same name.
pub open spec fn spec_index_map(target: Seq<String>, source: Seq<String>) -> Seq<usize> {
    Seq::new(target.len(), |i: int| first_index(source, target[i]@).unwrap() as usize)
}

/// The `(destination label, source label)` pairs that the assignments give, in order.
pub open spec fn label_pairs(assigns: Seq<MetaVariableAssign>) -> Seq<(Seq<char>, Seq<char>)>
    decreases assigns.len(),
{
    if assigns.len() == 0 {
        Seq::empty()
    } else {
        label_pairs(assigns.drop_last()) + match assigns.last().target {
            AssignTarget::Label(t) => seq![(t@, assigns.last().source@)],
            _ => Seq::empty(),
        }
    }
}

/// The destination variables that the assignments assign to, in order.
pub open spec fn var_targets(assigns: Seq<MetaVariableAssign>) -> Seq<Seq<char>>
    decreases assigns.len(),
{
    if assigns.len() == 0 {
        Seq::empty()
    } else {
        var_targets(assigns.drop_last()) + match assigns.last().target {
            AssignTarget::Var(t) => seq![t@],
            _ => Seq::empty(),
        }
    }
}

/// The assignments of a configuration, none if it has none.
pub open spec fn config_assigns(c: MetaVariableAssignList) -> Seq<MetaVariableAssign> {
    match c.assigns {
        Some(v) => v@,
        None => Seq::empty(),
    }
}

/// No destination label nor variable is assigned twice, and every assignment
/// targets a label or a variable.
pub open spec fn config_ok(c: MetaVariableAssignList) -> bool {
    let assigns = config_assigns(c);
    &&& forall|i: int| 0 <= i < assigns.len() ==> !((#[trigger] assigns[i]).target is Other)
    &&& label_pairs(assigns).map_values(|p: (Seq<char>, Seq<char>)| p.0).no_duplicates()
    &&& var_targets(assigns).no_duplicates()
}

pub open spec fn labels_view(v: Seq<(String, String)>) -> Seq<(Seq<char>, Seq<char>)> {
    v.map_values(|p: (String, String)| (p.0@, p.1@))
}

fn first_index_exec(names: &Vec<String>, name: &String) -> (r: Option<usize>)
    ensures
        match first_index(names@, name@) {
            Some(k) => r == Some(k as usize),
            None => r is None,
        },
{
    let mut i: usize = 0;
    while i < names.len()
        invariant
            i <= names@.len(),
            first_index(names@.take(i as int), name@) is None,
        decreases names@.len() - i,
    {
        assert(names@.take(i + 1).drop_last() =~= names@.take(i as int));
        if names[i] == *name {
            proof {
                lemma_first_index_prefix(names@, name@, i as int + 1);
            }
            return Some(i);
        }
        i += 1;
    }
    assert(names@.take(i as int) =~= names@);
    None
}

proof fn lemma_first_index_prefix(names: Seq<String>, name: Seq<char>, k: int)
    requires
        0 <= k <= names.len(),
        first_index(names.take(k), name) is Some,
    ensures
        first_index(names, name) == first_index(names.take(k), name),
    decreases names.len() - k,
{
    if k < names.len() {
        assert(names.take(k + 1).drop_last() =~= names.take(k));
        lemma_first_index_prefix(names, name, k + 1);
    } else {
        assert(names.take(k) =~= names);
    }
}

fn index_map(target: &Vec<String>, source: &Vec<String>) -> (r: Vec<usize>)
    requires
        all_found(target@, source@),
    ensures
        r@ == spec_index_map(target@, source@),
{
    let mut out: Vec<usize> = Vec::new();
    for i in 0..target.len()
        invariant
            all_found(target@, source@),
            out@ =~= spec_index_map(target@, source@).take(i as int),
    {
        assert(first_index(source@, target@[i as int]@) is Some);
        let idx = first_index_exec(source, &target[i]).unwrap();
        out.push(idx);
    }
    out
}

impl MatchedMap {
    /// The correspondence that a pattern reference sets up: each destination
    /// meta variable maps to the first source meta variable of the same name
    /// and type, and each label assignment maps a destination label to a
    /// source label.
    pub fn new(
        target: &NonLocalMetaVars,
        source: &NonLocalMetaVars,
        configuration: &MetaVariableAssignList,
    ) -> (r: Self)
        requires
            config_ok(*configuration),
            all_found(target.ty_vars@, source.ty_vars@),
            all_found(target.const_vars@, source.const_vars@),
            all_found(target.place_vars@, source.place_vars@),
        ensures
            r.ty_vars@ == spec_index_map(target.ty_vars@, source.ty_vars@),
            r.const_vars@ == spec_index_map(target.const_vars@, source.const_vars@),
            r.place_vars@ == spec_index_map(target.place_vars@, source.place_vars@),
            labels_view(r.labels@) == label_pairs(config_assigns(*configuration)),
    {
        let mut labels: Vec<(String, String)> = Vec::new();
        assert(labels_view(labels@) =~= label_pairs(Seq::<MetaVariableAssign>::empty()));
        if let Some(assigns) = &configuration.assigns {
            for i in 0..assigns.len()
                invariant
                    labels_view(labels@) =~= label_pairs(assigns@.take(i as int)),
            {
                assert(assigns@.take(i + 1).drop_last() =~= assigns@.take(i as int));
                let assign = &assigns[i];
                if let AssignTarget::Label(target_label) = &assign.target {
                    labels.push((target_label.clone(), assign.source.clone()));
                }
            }
            assert(assigns@.take(assigns@.len() as int) =~= assigns@);
        }
        MatchedMap {
            ty_vars: index_map(&target.ty_vars, &source.ty_vars),
            const_vars: index_map(&target.const_vars, &source.const_vars),
            place_vars: index_map(&target.place_vars, &source.place_vars),
            labels,
        }
    }
}


proof fn lemma_first_index_is_first(names: Seq<String>, name: Seq<char>)
    ensures
        first_index(names, name) matches Some(k) ==> 0 <= k < names.len() && names[k]@ == name
            && forall|j: int| 0 <= j < k ==> names[j]@ != name,
        first_index(names, name) is None ==> forall|j: int| 0 <= j < names.len() ==> names[j]@ != name,
    decreases names.len(),
{
    if names.len() > 0 {
        lemma_first_index_is_first(names.drop_last(), name);
        assert(forall|j: int| 0 <= j < names.len() - 1 ==> names.drop_last()[j] == names[j]);
    }
}

/// Each destination meta variable maps to a source meta variable of the same
/// name, the first one of that name.
pub proof fn lemma_index_map_names(target: Seq<String>, source: Seq<String>)
    requires
        all_found(target, source),
        source.len() <= usize::MAX,
    ensures
        spec_index_map(target, source).len() == target.len(),
        forall|i: int|
            0 <= i < target.len() ==> {
                let k = #[trigger] spec_index_map(target, source)[i] as int;
                &&& 0 <= k < source.len()
                &&& source[k]@ == target[i]@
                &&& forall|j: int| 0 <= j < k ==> source[j]@ != target[i]@
            },
{
    assert forall|i: int| 0 <= i < target.len() implies {
        let k = #[trigger] spec_index_map(target, source)[i] as int;
        &&& 0 <= k < source.len()
        &&& source[k]@ == target[i]@
        &&& forall|j: int| 0 <= j < k ==> source[j]@ != target[i]@
    } by {
        lemma_first_index_is_first(source, target[i]@);
        assert(first_index(source, target[i]@) is Some);
        let k = first_index(source, target[i]@)->0;
        assert(0 <= k < source.len());
        assert(spec_index_map(target, source)[i] == k as usize);
    }
}

fn all_found_exec(target: &Vec<String>, source: &Vec<String>) -> (r: bool)
    ensures
        r == all_found(target@, source@),
{
    for i in 0..target.len()
        invariant
            forall|j: int| 0 <= j < i ==> first_index(source@, (#[trigger] target@[j])@) is Some,
    {
        if first_index_exec(source, &target[i]).is_none() {
            assert(first_index(source@, target@[i as int]@) is None);
            return false;
        }
    }
    true
}

pub open spec fn names_of(v: Seq<String>) -> Seq<Seq<char>> {
    v.map_values(|s: String| s@)
}

fn distinct_names(v: &Vec<String>) -> (r: bool)
    ensures
        r == names_of(v@).no_duplicates(),
{
    let ghost names = names_of(v@);
    for i in 0..v.len()
        invariant
            names == names_of(v@),
            forall|a: int, b: int| 0 <= a < b < i ==> names[a] != names[b],
    {
        for j in 0..i
            invariant
                i < v@.len(),
                names == names_of(v@),
                forall|a: int, b: int| 0 <= a < b < i ==> names[a] != names[b],
                forall|a: int| 0 <= a < j ==> names[a] != names[i as int],
        {
            if v[j] == v[i] {
                assert(names[j as int] == names[i as int]);
                return false;
            }
        }
    }
    assert forall|a: int, b: int|
        0 <= a < names.len() && 0 <= b < names.len() && a != b implies names[a] != names[b] by {
        if a > b {
            assert(names[b] != names[a]);
        }
    }
    true
}

impl MatchedMap {
    /// Whether a pattern reference can set up a correspondence, as
    /// [`MatchedMap::new`] asks: every assignment targets a label or a meta
    /// variable, none is assigned twice, and every destination meta variable
    /// has a source meta variable of the same name.
    pub fn can_map(
        target: &NonLocalMetaVars,
        source: &NonLocalMetaVars,
        configuration: &MetaVariableAssignList,
    ) -> (r: bool)
        ensures
            r == (config_ok(*configuration) && all_found(target.ty_vars@, source.ty_vars@)
                && all_found(target.const_vars@, source.const_vars@) && all_found(
                target.place_vars@,
                source.place_vars@,
            )),
    {
        let ghost assigns = config_assigns(*configuration);
        let mut label_targets: Vec<String> = Vec::new();
        let mut var_targets_v: Vec<String> = Vec::new();
        let mut all_known = true;
        if let Some(list) = &configuration.assigns {
            for i in 0..list.len()
                invariant
                    assigns == list@,
                    names_of(label_targets@) =~= label_pairs(assigns.take(i as int)).map_values(
                        |p: (Seq<char>, Seq<char>)| p.0,
                    ),
                    names_of(var_targets_v@) =~= var_targets(assigns.take(i as int)),
                    all_known == forall|j: int| 0 <= j < i ==> !((#[trigger] assigns[j]).target is Other),
            {
                assert(assigns.take(i + 1).drop_last() =~= assigns.take(i as int));
                assert(assigns.take(i + 1).last() == assigns[i as int]);
                let ghost prev_pairs = label_pairs(assigns.take(i as int));
                let ghost prev_labels = label_targets@;
                match &list[i].target {
                    AssignTarget::Label(t) => {
                        label_targets.push(t.clone());
                        proof {
                            let next_pairs = label_pairs(assigns.take(i + 1));
                            assert(next_pairs =~= prev_pairs + seq![(t@, list@[i as int].source@)]);
                            assert(names_of(prev_labels) =~= prev_pairs.map_values(
                                |p: (Seq<char>, Seq<char>)| p.0,
                            ));
                            assert(names_of(prev_labels).len() == prev_labels.len());
                            assert(prev_labels.len() == prev_pairs.len());
                            assert forall|k: int| 0 <= k < prev_labels.len() implies label_targets@[k]@
                                == next_pairs[k].0 by {
                                assert(label_targets@[k] == prev_labels[k]);
                                assert(names_of(prev_labels)[k] == prev_labels[k]@);
                                assert(prev_pairs.map_values(|p: (Seq<char>, Seq<char>)| p.0)[k]
                                    == prev_pairs[k].0);
                                assert(next_pairs[k] == prev_pairs[k]);
                            }
                            assert(label_targets@[prev_labels.len() as int]@ == t@);
                            assert(names_of(label_targets@) =~= next_pairs.map_values(
                                |p: (Seq<char>, Seq<char>)| p.0,
                            ));
                        }
                    },
                    AssignTarget::Var(t) => {
                        var_targets_v.push(t.clone());
                    },
                    AssignTarget::Other => {
                        all_known = false;
                    },
                }
                proof {
                    if !all_known {
                        if assigns[i as int].target is Other {
                        } else {
                            let j = choose|j: int| 0 <= j < i && (#[trigger] assigns[j]).target is Other;
                        }
                    }
                }
            }
            assert(assigns.take(list@.len() as int) =~= assigns);
        } else {
            assert(label_pairs(assigns) =~= Seq::<(Seq<char>, Seq<char>)>::empty());
            assert(names_of(label_targets@) =~= label_pairs(assigns).map_values(
                |p: (Seq<char>, Seq<char>)| p.0,
            ));
            assert(names_of(var_targets_v@) =~= var_targets(assigns));
        }
        all_known && distinct_names(&label_targets) && distinct_names(&var_targets_v) && all_found_exec(
            &target.ty_vars,
            &source.ty_vars,
        ) && all_found_exec(&target.const_vars, &source.const_vars) && all_found_exec(
            &target.place_vars,
            &source.place_vars,
        )
    }
}

} // verus!
