//! The requirements that a resolution starts from, and the markers that
//! stand on them once constraints and overrides are applied.

use crate::index::{LocalEditable, Metadata, Preferences, Requirement};
use crate::marker::{
    add_marker_params_from_tree, distinct, lemma_with_marker_distinct, with_marker, MarkerParam,
};
use crate::name::PackageName;
use vstd::prelude::*;

verus! {

/// An editable project among the inputs, with the requirements it declares.
#[derive(Debug)]
pub struct ManifestEditable {
    pub editable: LocalEditable,
    pub metadata: Metadata,
    pub dependencies: Vec<Requirement>,
}

/// What a resolution starts from.
#[derive(Debug)]
pub struct Manifest {
    /// The direct requirements.
    pub requirements: Vec<Requirement>,
    /// Requirements that hold of a package wherever it is required.
    pub constraints: Vec<Requirement>,
    /// Requirements that stand in place of every requirement on their package.
    pub overrides: Vec<Requirement>,
    /// The editable projects.
    pub editables: Vec<ManifestEditable>,
    /// The choices of an earlier resolution.
    pub preferences: Preferences,
}

/// One of the first `n` requirements is on the package `name`.
pub open spec fn has_named(reqs: Seq<Requirement>, name: Seq<char>, n: nat) -> bool
    decreases n,
{
    if n == 0 || n > reqs.len() {
        false
    } else {
        reqs[n - 1].name@ == name || has_named(reqs, name, (n - 1) as nat)
    }
}

/// `set` with the parameters in the markers of those of the first `n`
/// constraints that are on the package `name`.
pub open spec fn with_constraints(
    set: Seq<MarkerParam>,
    constraints: Seq<Requirement>,
    name: Seq<char>,
    n: nat,
) -> Seq<MarkerParam>
    decreases n,
{
    if n == 0 || n > constraints.len() {
        set
    } else {
        let before = with_constraints(set, constraints, name, (n - 1) as nat);
        if constraints[n - 1].name@ == name {
            with_marker(before, constraints[n - 1].marker)
        } else {
            before
        }
    }
}

/// `set` with the parameters in the marker of the requirement and in those
/// of the constraints on its package.
pub open spec fn with_constrained(set: Seq<MarkerParam>, m: Manifest, req: Requirement) -> Seq<
    MarkerParam,
> {
    with_constraints(
        with_marker(set, req.marker),
        m.constraints@,
        req.name@,
        m.constraints@.len(),
    )
}

/// `set` with the parameters of those of the first `n` overrides that are on
/// the package `name`, each with its constraints.
pub open spec fn with_overrides(set: Seq<MarkerParam>, m: Manifest, name: Seq<char>, n: nat) -> Seq<
    MarkerParam,
>
    decreases n,
{
    if n == 0 || n > m.overrides@.len() {
        set
    } else {
        let before = with_overrides(set, m, name, (n - 1) as nat);
        if m.overrides@[n - 1].name@ == name {
            with_constrained(before, m, m.overrides@[n - 1])
        } else {
            before
        }
    }
}

/// `set` with the parameters that stand on a requirement once the manifest
/// is applied: the overrides on its package stand in its place where there
/// are any, and the constraints on the package follow each.
pub open spec fn with_applied(set: Seq<MarkerParam>, m: Manifest, req: Requirement) -> Seq<
    MarkerParam,
> {
    if has_named(m.overrides@, req.name@, m.overrides@.len()) {
        with_overrides(set, m, req.name@, m.overrides@.len())
    } else {
        with_constrained(set, m, req)
    }
}

/// `set` with the parameters that stand on the first `n` of the
/// requirements once the manifest is applied.
pub open spec fn with_requirements(
    set: Seq<MarkerParam>,
    m: Manifest,
    reqs: Seq<Requirement>,
    n: nat,
) -> Seq<MarkerParam>
    decreases n,
{
    if n == 0 || n > reqs.len() {
        set
    } else {
        with_applied(with_requirements(set, m, reqs, (n - 1) as nat), m, reqs[n - 1])
    }
}

/// `set` with the parameters that stand on the requirements of the first
/// `n` editable projects.
pub open spec fn with_editables(set: Seq<MarkerParam>, m: Manifest, n: nat) -> Seq<MarkerParam>
    decreases n,
{
    if n == 0 || n > m.editables@.len() {
        set
    } else {
        let deps = m.editables@[n - 1].dependencies@;
        with_requirements(with_editables(set, m, (n - 1) as nat), m, deps, deps.len())
    }
}

/// `set` with the parameters that stand on the direct requirements and on
/// those of the editable projects.
pub open spec fn with_direct(set: Seq<MarkerParam>, m: Manifest) -> Seq<MarkerParam> {
    with_editables(
        with_requirements(set, m, m.requirements@, m.requirements@.len()),
        m,
        m.editables@.len(),
    )
}

fn add_marker(req: &Requirement, set: &mut Vec<MarkerParam>)
    ensures
        final(set)@ == with_marker(old(set)@, req.marker),
{
    match &req.marker {
        Some(tree) => add_marker_params_from_tree(tree, set),
        None => {},
    }
}

impl Manifest {
    fn add_constrained(&self, req: &Requirement, set: &mut Vec<MarkerParam>)
        ensures
            final(set)@ == with_constrained(old(set)@, *self, *req),
    {
        add_marker(req, set);
        let ghost start = set@;
        let mut i: usize = 0;
        while i < self.constraints.len()
            invariant
                i <= self.constraints.len(),
                set@ == with_constraints(start, self.constraints@, req.name@, i as nat),
            decreases self.constraints.len() - i,
        {
            if self.constraints[i].name == req.name {
                add_marker(&self.constraints[i], set);
            }
            i += 1;
        }
    }

    fn overrides_name(&self, name: &PackageName) -> (r: bool)
        ensures
            r == has_named(self.overrides@, name@, self.overrides@.len()),
    {
        let mut i: usize = 0;
        let mut found = false;
        while i < self.overrides.len()
            invariant
                i <= self.overrides.len(),
                found == has_named(self.overrides@, name@, i as nat),
            decreases self.overrides.len() - i,
        {
            if self.overrides[i].name == *name {
                found = true;
            }
            i += 1;
        }
        found
    }

    /// Adds to `set` the parameters that stand on a requirement once the
    /// manifest is applied.
    pub fn add_applied(&self, req: &Requirement, set: &mut Vec<MarkerParam>)
        ensures
            final(set)@ == with_applied(old(set)@, *self, *req),
    {
        if self.overrides_name(&req.name) {
            let mut i: usize = 0;
            while i < self.overrides.len()
                invariant
                    i <= self.overrides.len(),
                    set@ == with_overrides(old(set)@, *self, req.name@, i as nat),
                decreases self.overrides.len() - i,
            {
                if self.overrides[i].name == req.name {
                    self.add_constrained(&self.overrides[i], set);
                }
                i += 1;
            }
        } else {
            self.add_constrained(req, set);
        }
    }

    /// Adds to `set` the parameters that stand on the requirements once the
    /// manifest is applied.
    pub fn add_requirements(&self, reqs: &Vec<Requirement>, set: &mut Vec<MarkerParam>)
        ensures
            final(set)@ == with_requirements(old(set)@, *self, reqs@, reqs@.len()),
    {
        let mut i: usize = 0;
        while i < reqs.len()
            invariant
                i <= reqs.len(),
                set@ == with_requirements(old(set)@, *self, reqs@, i as nat),
            decreases reqs.len() - i,
        {
            self.add_applied(&reqs[i], set);
            i += 1;
        }
    }

    /// Adds to `set` the parameters that stand on the direct requirements
    /// and on those of the editable projects.
    pub fn add_direct(&self, set: &mut Vec<MarkerParam>)
        ensures
            final(set)@ == with_direct(old(set)@, *self),
    {
        self.add_requirements(&self.requirements, set);
        let ghost start = set@;
        let mut i: usize = 0;
        while i < self.editables.len()
            invariant
                i <= self.editables.len(),
                set@ == with_editables(start, *self, i as nat),
            decreases self.editables.len() - i,
        {
            self.add_requirements(&self.editables[i].dependencies, set);
            i += 1;
        }
    }
}

proof fn lemma_with_constraints_distinct(
    set: Seq<MarkerParam>,
    constraints: Seq<Requirement>,
    name: Seq<char>,
    n: nat,
)
    requires
        distinct(set),
    ensures
        distinct(with_constraints(set, constraints, name, n)),
    decreases n,
{
    if n > 0 && n <= constraints.len() {
        lemma_with_constraints_distinct(set, constraints, name, (n - 1) as nat);
        lemma_with_marker_distinct(
            with_constraints(set, constraints, name, (n - 1) as nat),
            constraints[n - 1].marker,
        );
    }
}

proof fn lemma_with_constrained_distinct(set: Seq<MarkerParam>, m: Manifest, req: Requirement)
    requires
        distinct(set),
    ensures
        distinct(with_constrained(set, m, req)),
{
    lemma_with_marker_distinct(set, req.marker);
    lemma_with_constraints_distinct(
        with_marker(set, req.marker),
        m.constraints@,
        req.name@,
        m.constraints@.len(),
    );
}

proof fn lemma_with_overrides_distinct(set: Seq<MarkerParam>, m: Manifest, name: Seq<char>, n: nat)
    requires
        distinct(set),
    ensures
        distinct(with_overrides(set, m, name, n)),
    decreases n,
{
    if n > 0 && n <= m.overrides@.len() {
        lemma_with_overrides_distinct(set, m, name, (n - 1) as nat);
        lemma_with_constrained_distinct(
            with_overrides(set, m, name, (n - 1) as nat),
            m,
            m.overrides@[n - 1],
        );
    }
}

/// Adding the parameters that stand on requirements keeps a set free of
/// repetitions.
pub proof fn lemma_with_requirements_distinct(
    set: Seq<MarkerParam>,
    m: Manifest,
    reqs: Seq<Requirement>,
    n: nat,
)
    requires
        distinct(set),
    ensures
        distinct(with_requirements(set, m, reqs, n)),
    decreases n,
{
    if n > 0 && n <= reqs.len() {
        lemma_with_requirements_distinct(set, m, reqs, (n - 1) as nat);
        let before = with_requirements(set, m, reqs, (n - 1) as nat);
        lemma_with_overrides_distinct(before, m, reqs[n - 1].name@, m.overrides@.len());
        lemma_with_constrained_distinct(before, m, reqs[n - 1]);
    }
}

proof fn lemma_with_editables_distinct(set: Seq<MarkerParam>, m: Manifest, n: nat)
    requires
        distinct(set),
    ensures
        distinct(with_editables(set, m, n)),
    decreases n,
{
    if n > 0 && n <= m.editables@.len() {
        lemma_with_editables_distinct(set, m, (n - 1) as nat);
        let deps = m.editables@[n - 1].dependencies@;
        lemma_with_requirements_distinct(with_editables(set, m, (n - 1) as nat), m, deps, deps.len());
    }
}

/// Adding the parameters that stand on the direct requirements keeps a set
/// free of repetitions.
pub proof fn lemma_with_direct_distinct(set: Seq<MarkerParam>, m: Manifest)
    requires
        distinct(set),
    ensures
        distinct(with_direct(set, m)),
{
    lemma_with_requirements_distinct(set, m, m.requirements@, m.requirements@.len());
    lemma_with_editables_distinct(
        with_requirements(set, m, m.requirements@, m.requirements@.len()),
        m,
        m.editables@.len(),
    );
}

} // verus!
