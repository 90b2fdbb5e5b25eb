//! Marker expressions over the parameters of an environment, and the
//! expression that pins the parameters a resolution looked at.

use crate::version::{version_text, Version, VersionView};
use vstd::prelude::*;

verus! {

/// A parameter of the environment that holds a version.
#[derive(Debug, Clone, Copy, PartialEq, Eq, Structural)]
pub enum MarkerValueVersion {
    ImplementationVersion,
    PythonFullVersion,
    PythonVersion,
}

/// A parameter of the environment that holds a text.
#[derive(Debug, Clone, Copy, PartialEq, Eq, Structural)]
pub enum MarkerValueString {
    ImplementationName,
    OsName,
    OsNameDeprecated,
    PlatformMachine,
    PlatformMachineDeprecated,
    PlatformPythonImplementation,
    PlatformPythonImplementationDeprecated,
    PlatformRelease,
    PlatformSystem,
    PlatformVersion,
    PlatformVersionDeprecated,
    SysPlatform,
    SysPlatformDeprecated,
}

/// One side of a marker expression.
#[derive(Debug)]
pub enum MarkerValue {
    /// A version parameter of the environment.
    MarkerEnvVersion(MarkerValueVersion),
    /// A text parameter of the environment.
    MarkerEnvString(MarkerValueString),
    /// The extra that is being installed.
    Extra,
    /// A text given by the author of the expression.
    QuotedString(String),
}

/// How the two sides of a marker expression are compared.
#[derive(Debug, Clone, Copy, PartialEq, Eq, Structural)]
pub enum MarkerOperator {
    Equal,
    NotEqual,
    GreaterThan,
    GreaterEqual,
    LessThan,
    LessEqual,
    TildeEqual,
    In,
    NotIn,
}

/// A comparison of two marker values.
#[derive(Debug)]
pub struct MarkerExpression {
    pub l_value: MarkerValue,
    pub operator: MarkerOperator,
    pub r_value: MarkerValue,
}

/// A boolean combination of marker expressions.
#[derive(Debug)]
pub enum MarkerTree {
    Expression(MarkerExpression),
    And(Vec<MarkerTree>),
    Or(Vec<MarkerTree>),
}

/// A parameter of the environment.
#[derive(Debug, Clone, Copy, PartialEq, Eq, Structural)]
pub enum MarkerParam {
    Version(MarkerValueVersion),
    String(MarkerValueString),
}

/// The trees directly below the root of `tree`.
pub open spec fn children(tree: MarkerTree) -> Seq<MarkerTree> {
    match tree {
        MarkerTree::Expression(_) => Seq::empty(),
        MarkerTree::And(ts) => ts@,
        MarkerTree::Or(ts) => ts@,
    }
}

/// `set` with `p` added at the end, unless it holds `p` already.
pub open spec fn with_param(set: Seq<MarkerParam>, p: MarkerParam) -> Seq<MarkerParam> {
    if set.contains(p) {
        set
    } else {
        set.push(p)
    }
}

/// `set` with the parameter that `value` names, if it names one.
pub open spec fn with_value(set: Seq<MarkerParam>, value: MarkerValue) -> Seq<MarkerParam> {
    match value {
        MarkerValue::MarkerEnvVersion(p) => with_param(set, MarkerParam::Version(p)),
        MarkerValue::MarkerEnvString(p) => with_param(set, MarkerParam::String(p)),
        MarkerValue::Extra => set,
        MarkerValue::QuotedString(_) => set,
    }
}

/// `set` with every parameter that occurs in `tree`, in the order of their
/// first occurrence from left to right.
pub open spec fn with_tree(set: Seq<MarkerParam>, tree: MarkerTree) -> Seq<MarkerParam>
    decreases tree, children(tree).len() + 1,
{
    match tree {
        MarkerTree::Expression(e) => with_value(with_value(set, e.l_value), e.r_value),
        _ => with_children(set, tree, children(tree).len()),
    }
}

/// `set` with every parameter that occurs in the first `n` trees below the
/// root of `tree`.
pub open spec fn with_children(set: Seq<MarkerParam>, tree: MarkerTree, n: nat) -> Seq<
    MarkerParam,
>
    decreases tree, n,
{
    if n == 0 || n > children(tree).len() {
        set
    } else {
        with_tree(with_children(set, tree, (n - 1) as nat), children(tree)[n - 1])
    }
}


fn holds_param(set: &Vec<MarkerParam>, p: MarkerParam) -> (r: bool)
    ensures
        r == set@.contains(p),
{
    let mut i: usize = 0;
    while i < set.len()
        invariant
            i <= set.len(),
            forall|j: int| 0 <= j < i ==> set@[j] != p,
        decreases set.len() - i,
    {
        if set[i] == p {
            return true;
        }
        i += 1;
    }
    false
}

/// Adds the parameter that `value` names, if it names one, to `set`.
pub fn add_marker_value(value: &MarkerValue, set: &mut Vec<MarkerParam>)
    ensures
        final(set)@ == with_value(old(set)@, *value),
{
    match value {
        MarkerValue::MarkerEnvVersion(p) => {
            let param = MarkerParam::Version(*p);
            if !holds_param(set, param) {
                set.push(param);
            }
        },
        MarkerValue::MarkerEnvString(p) => {
            let param = MarkerParam::String(*p);
            if !holds_param(set, param) {
                set.push(param);
            }
        },
        MarkerValue::Extra => {},
        MarkerValue::QuotedString(_) => {},
    }
}

/// Adds every parameter that occurs in `tree` to `set`.
pub fn add_marker_params_from_tree(tree: &MarkerTree, set: &mut Vec<MarkerParam>)
    ensures
        final(set)@ == with_tree(old(set)@, *tree),
    decreases tree,
{
    match tree {
        MarkerTree::Expression(e) => {
            add_marker_value(&e.l_value, set);
            add_marker_value(&e.r_value, set);
        },
        MarkerTree::And(ts) => {
            let mut i: usize = 0;
            while i < ts.len()
                invariant
                    i <= ts.len(),
                    ts@ == children(*tree),
                    set@ == with_children(old(set)@, *tree, i as nat),
                decreases ts.len() - i,
            {
                add_marker_params_from_tree(&ts[i], set);
                i += 1;
            }
        },
        MarkerTree::Or(ts) => {
            let mut i: usize = 0;
            while i < ts.len()
                invariant
                    i <= ts.len(),
                    ts@ == children(*tree),
                    set@ == with_children(old(set)@, *tree, i as nat),
                decreases ts.len() - i,
            {
                add_marker_params_from_tree(&ts[i], set);
                i += 1;
            }
        },
    }
}

/// Adds every parameter that occurs in the marker of a requirement, if it
/// has one, to `set`.
pub open spec fn with_marker(set: Seq<MarkerParam>, marker: Option<MarkerTree>) -> Seq<
    MarkerParam,
> {
    match marker {
        Some(tree) => with_tree(set, tree),
        None => set,
    }
}

/// No parameter occurs twice in `set`.
pub open spec fn distinct(set: Seq<MarkerParam>) -> bool {
    forall|i: int, j: int| 0 <= i < j < set.len() ==> set[i] != set[j]
}

/// Adding the parameters of a marker keeps a set free of repetitions.
pub proof fn lemma_with_marker_distinct(set: Seq<MarkerParam>, marker: Option<MarkerTree>)
    requires
        distinct(set),
    ensures
        distinct(with_marker(set, marker)),
{
    match marker {
        Some(tree) => lemma_with_tree_distinct(set, tree),
        None => {},
    }
}

/// Adding the parameters of a tree keeps a set free of repetitions, and
/// keeps what it held.
pub proof fn lemma_with_tree_distinct(set: Seq<MarkerParam>, tree: MarkerTree)
    requires
        distinct(set),
    ensures
        distinct(with_tree(set, tree)),
        set.len() <= with_tree(set, tree).len(),
        forall|i: int| 0 <= i < set.len() ==> with_tree(set, tree)[i] == set[i],
    decreases tree, children(tree).len() + 1,
{
    match tree {
        MarkerTree::Expression(e) => {
            lemma_with_value_distinct(set, e.l_value);
            lemma_with_value_distinct(with_value(set, e.l_value), e.r_value);
        },
        _ => {
            lemma_with_children_distinct(set, tree, children(tree).len());
        },
    }
}

proof fn lemma_with_value_distinct(set: Seq<MarkerParam>, value: MarkerValue)
    requires
        distinct(set),
    ensures
        distinct(with_value(set, value)),
        set.len() <= with_value(set, value).len(),
        forall|i: int| 0 <= i < set.len() ==> with_value(set, value)[i] == set[i],
{
}

proof fn lemma_with_children_distinct(set: Seq<MarkerParam>, tree: MarkerTree, n: nat)
    requires
        distinct(set),
    ensures
        distinct(with_children(set, tree, n)),
        set.len() <= with_children(set, tree, n).len(),
        forall|i: int| 0 <= i < set.len() ==> with_children(set, tree, n)[i] == set[i],
    decreases tree, n,
{
    if n == 0 || n > children(tree).len() {
    } else {
        lemma_with_children_distinct(set, tree, (n - 1) as nat);
        lemma_with_tree_distinct(with_children(set, tree, (n - 1) as nat), children(tree)[n - 1]);
    }
}

/// The values that the parameters have in one environment.
#[derive(Debug)]
pub struct MarkerEnvironment {
    pub implementation_name: String,
    pub implementation_version: Version,
    pub os_name: String,
    pub platform_machine: String,
    pub platform_python_implementation: String,
    pub platform_release: String,
    pub platform_system: String,
    pub platform_version: String,
    pub python_full_version: Version,
    pub python_version: Version,
    pub sys_platform: String,
}

impl MarkerEnvironment {
    /// The value of a version parameter.
    pub open spec fn version_of(&self, p: MarkerValueVersion) -> VersionView {
        match p {
            MarkerValueVersion::ImplementationVersion => self.implementation_version@,
            MarkerValueVersion::PythonFullVersion => self.python_full_version@,
            MarkerValueVersion::PythonVersion => self.python_version@,
        }
    }

    /// The value of a text parameter.
    pub open spec fn string_of(&self, p: MarkerValueString) -> Seq<char> {
        match p {
            MarkerValueString::ImplementationName => self.implementation_name@,
            MarkerValueString::OsName => self.os_name@,
            MarkerValueString::OsNameDeprecated => self.os_name@,
            MarkerValueString::PlatformMachine => self.platform_machine@,
            MarkerValueString::PlatformMachineDeprecated => self.platform_machine@,
            MarkerValueString::PlatformPythonImplementation => self.platform_python_implementation@,
            MarkerValueString::PlatformPythonImplementationDeprecated => self.platform_python_implementation@,
            MarkerValueString::PlatformRelease => self.platform_release@,
            MarkerValueString::PlatformSystem => self.platform_system@,
            MarkerValueString::PlatformVersion => self.platform_version@,
            MarkerValueString::PlatformVersionDeprecated => self.platform_version@,
            MarkerValueString::SysPlatform => self.sys_platform@,
            MarkerValueString::SysPlatformDeprecated => self.sys_platform@,
        }
    }

    /// The value of a parameter, as the text that an expression quotes.
    pub open spec fn text_of(&self, p: MarkerParam) -> Seq<char> {
        match p {
            MarkerParam::Version(v) => version_text(self.version_of(v)),
            MarkerParam::String(s) => self.string_of(s),
        }
    }

    /// The value of a version parameter.
    pub fn get_version(&self, p: &MarkerValueVersion) -> (v: &Version)
        ensures
            v@ == self.version_of(*p),
    {
        match p {
            MarkerValueVersion::ImplementationVersion => &self.implementation_version,
            MarkerValueVersion::PythonFullVersion => &self.python_full_version,
            MarkerValueVersion::PythonVersion => &self.python_version,
        }
    }

    /// The value of a text parameter.
    pub fn get_string(&self, p: &MarkerValueString) -> (s: &String)
        ensures
            s@ == self.string_of(*p),
    {
        match p {
            MarkerValueString::ImplementationName => &self.implementation_name,
            MarkerValueString::OsName => &self.os_name,
            MarkerValueString::OsNameDeprecated => &self.os_name,
            MarkerValueString::PlatformMachine => &self.platform_machine,
            MarkerValueString::PlatformMachineDeprecated => &self.platform_machine,
            MarkerValueString::PlatformPythonImplementation => &self.platform_python_implementation,
            MarkerValueString::PlatformPythonImplementationDeprecated => &self.platform_python_implementation,
            MarkerValueString::PlatformRelease => &self.platform_release,
            MarkerValueString::PlatformSystem => &self.platform_system,
            MarkerValueString::PlatformVersion => &self.platform_version,
            MarkerValueString::PlatformVersionDeprecated => &self.platform_version,
            MarkerValueString::SysPlatform => &self.sys_platform,
            MarkerValueString::SysPlatformDeprecated => &self.sys_platform,
        }
    }
}

/// `l` occurs in `r` as a run of consecutive characters.
pub open spec fn occurs_in(l: Seq<char>, r: Seq<char>) -> bool {
    exists|i: int| 0 <= i && i + l.len() <= r.len() && #[trigger] r.subrange(i, i + l.len()) == l
}

/// The comparison of two texts: equality, the lexicographic order, and
/// containment. Texts are never compatible releases of each other.
pub open spec fn compare_text(op: MarkerOperator, l: Seq<char>, r: Seq<char>) -> bool {
    match op {
        MarkerOperator::Equal => l == r,
        MarkerOperator::NotEqual => l != r,
        MarkerOperator::GreaterThan => crate::text::text_lt(r, l),
        MarkerOperator::GreaterEqual => !crate::text::text_lt(l, r),
        MarkerOperator::LessThan => crate::text::text_lt(l, r),
        MarkerOperator::LessEqual => !crate::text::text_lt(r, l),
        MarkerOperator::TildeEqual => false,
        MarkerOperator::In => occurs_in(l, r),
        MarkerOperator::NotIn => !occurs_in(l, r),
    }
}

/// How the version `v` stands to the version `w`, for the six operators of
/// the order; the other operators never hold of two versions. A version is
/// equal to itself, and to every version that the order puts neither before
/// nor after it.
pub open spec fn compare_versions(op: MarkerOperator, v: VersionView, w: VersionView) -> bool {
    match op {
        MarkerOperator::Equal => v == w || (!crate::version::version_lt(v, w)
            && !crate::version::version_lt(w, v)),
        MarkerOperator::NotEqual => v != w && (crate::version::version_lt(v, w)
            || crate::version::version_lt(w, v)),
        MarkerOperator::GreaterThan => crate::version::version_lt(w, v),
        MarkerOperator::GreaterEqual => !crate::version::version_lt(v, w),
        MarkerOperator::LessThan => crate::version::version_lt(v, w),
        MarkerOperator::LessEqual => !crate::version::version_lt(w, v),
        MarkerOperator::TildeEqual => false,
        MarkerOperator::In => false,
        MarkerOperator::NotIn => false,
    }
}

/// The comparison of a version with a quoted text: the text spells a
/// version to which `v` stands as the operator says.
pub open spec fn compare_version(op: MarkerOperator, v: VersionView, literal: Seq<char>) -> bool {
    exists|w: VersionView| #[trigger] version_text(w) == literal && compare_versions(op, v, w)
}

/// The operator that says of `(r, l)` what `op` says of `(l, r)`.
pub open spec fn mirrored(op: MarkerOperator) -> MarkerOperator {
    match op {
        MarkerOperator::GreaterThan => MarkerOperator::LessThan,
        MarkerOperator::GreaterEqual => MarkerOperator::LessEqual,
        MarkerOperator::LessThan => MarkerOperator::GreaterThan,
        MarkerOperator::LessEqual => MarkerOperator::GreaterEqual,
        other => other,
    }
}

/// Whether an expression holds in an environment. A parameter is compared
/// with a quoted text; an expression of any other shape, such as one about
/// an extra, does not hold.
pub open spec fn expression_holds(e: MarkerExpression, env: MarkerEnvironment) -> bool {
    match (e.l_value, e.r_value) {
        (MarkerValue::MarkerEnvString(p), MarkerValue::QuotedString(s)) => compare_text(
            e.operator,
            env.string_of(p),
            s@,
        ),
        (MarkerValue::QuotedString(s), MarkerValue::MarkerEnvString(p)) => compare_text(
            e.operator,
            s@,
            env.string_of(p),
        ),
        (MarkerValue::MarkerEnvVersion(p), MarkerValue::QuotedString(s)) => compare_version(
            e.operator,
            env.version_of(p),
            s@,
        ),
        (MarkerValue::QuotedString(s), MarkerValue::MarkerEnvVersion(p)) => compare_version(
            mirrored(e.operator),
            env.version_of(p),
            s@,
        ),
        _ => false,
    }
}

/// Whether a marker tree holds in an environment.
pub open spec fn holds(tree: MarkerTree, env: MarkerEnvironment) -> bool
    decreases tree, children(tree).len() + 1,
{
    match tree {
        MarkerTree::Expression(e) => expression_holds(e, env),
        MarkerTree::And(_) => all_hold(tree, env, children(tree).len()),
        MarkerTree::Or(_) => any_holds(tree, env, children(tree).len()),
    }
}

/// Each of the first `n` trees below the root of `tree` holds.
pub open spec fn all_hold(tree: MarkerTree, env: MarkerEnvironment, n: nat) -> bool
    decreases tree, n,
{
    if n == 0 || n > children(tree).len() {
        true
    } else {
        all_hold(tree, env, (n - 1) as nat) && holds(children(tree)[n - 1], env)
    }
}

/// One of the first `n` trees below the root of `tree` holds.
pub open spec fn any_holds(tree: MarkerTree, env: MarkerEnvironment, n: nat) -> bool
    decreases tree, n,
{
    if n == 0 || n > children(tree).len() {
        false
    } else {
        any_holds(tree, env, (n - 1) as nat) || holds(children(tree)[n - 1], env)
    }
}

/// The marker value that names the parameter `p`.
pub open spec fn value_of_param(p: MarkerParam) -> MarkerValue {
    match p {
        MarkerParam::Version(v) => MarkerValue::MarkerEnvVersion(v),
        MarkerParam::String(s) => MarkerValue::MarkerEnvString(s),
    }
}

/// `tree` is the expression that says that `p` equals the value that it has
/// in `env`.
pub open spec fn pins(tree: MarkerTree, p: MarkerParam, env: MarkerEnvironment) -> bool {
    &&& tree matches MarkerTree::Expression(e)
    &&& e.l_value == value_of_param(p)
    &&& e.operator == MarkerOperator::Equal
    &&& e.r_value matches MarkerValue::QuotedString(s)
    &&& s@ == env.text_of(p)
}

/// `tree` is the conjunction that pins each parameter of `params`, in their
/// order, to the value that it has in `env`.
pub open spec fn is_projection(
    tree: MarkerTree,
    params: Seq<MarkerParam>,
    env: MarkerEnvironment,
) -> bool {
    &&& tree is And
    &&& children(tree).len() == params.len()
    &&& forall|i: int| 0 <= i < params.len() ==> pins(#[trigger] children(tree)[i], params[i], env)
}

/// A conjunction that pins parameters to the values of an environment holds
/// in that environment.
pub proof fn lemma_projection_holds(
    tree: MarkerTree,
    params: Seq<MarkerParam>,
    env: MarkerEnvironment,
)
    requires
        is_projection(tree, params, env),
    ensures
        holds(tree, env),
{
    lemma_pinned_children_hold(tree, params, env, params.len());
}

proof fn lemma_pinned_children_hold(
    tree: MarkerTree,
    params: Seq<MarkerParam>,
    env: MarkerEnvironment,
    n: nat,
)
    requires
        is_projection(tree, params, env),
        n <= params.len(),
    ensures
        all_hold(tree, env, n),
    decreases n,
{
    if n > 0 {
        lemma_pinned_children_hold(tree, params, env, (n - 1) as nat);
        let child = children(tree)[n - 1];
        assert(pins(child, params[n - 1], env));
        match params[n - 1] {
            MarkerParam::Version(v) => {
                let w = env.version_of(v);
                assert(version_text(w) == env.text_of(params[n - 1]));
                assert(compare_versions(MarkerOperator::Equal, w, w));
            },
            MarkerParam::String(s) => {},
        }
        assert(holds(child, env));
    }
}

/// The expression that says that `p` equals the value that it has in `env`.
pub fn pin_param(p: MarkerParam, env: &MarkerEnvironment) -> (tree: MarkerTree)
    ensures
        pins(tree, p, *env),
{
    match p {
        MarkerParam::Version(v) => {
            let from_env = env.get_version(&v);
            MarkerTree::Expression(
                MarkerExpression {
                    l_value: MarkerValue::MarkerEnvVersion(v),
                    operator: MarkerOperator::Equal,
                    r_value: MarkerValue::QuotedString(from_env.to_string()),
                },
            )
        },
        MarkerParam::String(s) => {
            let from_env = env.get_string(&s);
            MarkerTree::Expression(
                MarkerExpression {
                    l_value: MarkerValue::MarkerEnvString(s),
                    operator: MarkerOperator::Equal,
                    r_value: MarkerValue::QuotedString(from_env.clone()),
                },
            )
        },
    }
}

/// The conjunction that pins each parameter of `params` to the value that it
/// has in `env`. It holds in `env`.
pub fn project(params: &Vec<MarkerParam>, env: &MarkerEnvironment) -> (tree: MarkerTree)
    ensures
        is_projection(tree, params@, *env),
        holds(tree, *env),
{
    let mut conjuncts: Vec<MarkerTree> = Vec::new();
    let mut i: usize = 0;
    while i < params.len()
        invariant
            i <= params.len(),
            conjuncts.len() == i,
            forall|j: int| 0 <= j < i ==> pins(#[trigger] conjuncts@[j], params@[j], *env),
        decreases params.len() - i,
    {
        conjuncts.push(pin_param(params[i], env));
        i += 1;
    }
    let tree = MarkerTree::And(conjuncts);
    proof {
        assert(children(tree) == conjuncts@);
        lemma_projection_holds(tree, params@, *env);
    }
    tree
}

} // verus!
