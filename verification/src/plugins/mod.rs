//! Plugin manifests, their validation, and the network-isolation scanner
//! for plugin user interfaces.

pub mod hot_reload;
pub mod placeholders;
pub mod marketplace;
pub mod registry;

use crate::text::{chars_of, has_substring, last_pos, rfind_char, str_contains, str_eq, str_starts_with, substring, views};
use vstd::prelude::*;

verus! {

/// A column that a plugin declares for its item table.
#[derive(Debug, Clone)]
pub struct PluginColumn {
    pub name: String,
    pub display: String,
    pub col_type: String,
    pub dtype: String,
    pub sortable: bool,
}

/// An AI action that a plugin offers on its items.
#[derive(Debug, Clone)]
pub struct AiAction {
    pub id: String,
    pub label: String,
    pub context_columns: Vec<String>,
    pub result_mapping: ResultMapping,
}

/// Where the result of an AI action is stored.
#[derive(Debug, Clone)]
pub struct ResultMapping {
    pub cognitive_axis: String,
    pub context_axis: String,
}

/// An action that a plugin provides for items of other plugins (or its own).
#[derive(Debug, Clone)]
pub struct ProvidedAction {
    pub label: String,
    pub target_types: Vec<String>,
    pub handler: String,
    pub field_mapping: Option<FieldMapping>,
}

/// How the fields of a source item map onto the item an action creates.
#[derive(Debug, Clone)]
pub struct FieldMapping {
    pub action_title: String,
    pub cognitive_axis: String,
    pub context_axis: String,
    pub source_type: String,
    pub source_id: String,
}

/// The manifest a plugin ships at the root of its directory.
#[derive(Debug, Clone)]
pub struct PluginManifest {
    pub name: String,
    pub display_name: String,
    pub icon: Option<String>,
    pub columns: Vec<PluginColumn>,
    pub ai_actions: Vec<AiAction>,
    pub provides_actions: Vec<ProvidedAction>,
}

// ---------------------------------------------------------------------------
// Manifest validation
// ---------------------------------------------------------------------------

/// `n` is one of `names`.
pub open spec fn names_contain(names: Seq<String>, n: Seq<char>) -> bool {
    exists|i: int| 0 <= i < names.len() && #[trigger] names[i]@ == n
}

/// Some column of `columns` is called `n`.
pub open spec fn has_column(columns: Seq<PluginColumn>, n: Seq<char>) -> bool {
    exists|i: int| 0 <= i < columns.len() && #[trigger] columns[i].name@ == n
}

/// A target that is neither the plugin itself nor a registered plugin.
pub open spec fn is_foreign_unregistered(target: Seq<char>, plugin: Seq<char>, registered: Seq<String>) -> bool {
    target != plugin && !names_contain(registered, target)
}

pub open spec fn missing_cognitive_message(plugin: Seq<char>) -> Seq<char> {
    "Plugin '"@ + plugin + "' is missing the required 'cognitive_axis' column."@
}

pub open spec fn missing_context_message(plugin: Seq<char>) -> Seq<char> {
    "Plugin '"@ + plugin + "' is missing the required 'context_axis' column."@
}

/// The message for an unregistered action target; `in_mapping` selects the
/// wording used for a target of an action that has a field mapping.
pub open spec fn target_message(plugin: Seq<char>, target: Seq<char>, in_mapping: bool) -> Seq<char> {
    if in_mapping {
        "Plugin '"@ + plugin + "' field_mapping references missing plugin '"@ + target + "'."@
    } else {
        "Plugin '"@ + plugin + "' declares actions for '"@ + target + "' which is not registered."@
    }
}

pub open spec fn source_message(plugin: Seq<char>, source: Seq<char>) -> Seq<char> {
    "Plugin '"@ + plugin + "' field_mapping references missing source plugin '"@ + source + "'."@
}

/// The errors for the unregistered targets among `targets`, in order.
pub open spec fn target_errors(plugin: Seq<char>, targets: Seq<String>, registered: Seq<String>, in_mapping: bool) -> Seq<Seq<char>>
    decreases targets.len(),
{
    if targets.len() == 0 {
        seq![]
    } else {
        let prev = target_errors(plugin, targets.drop_last(), registered, in_mapping);
        let t = targets.last()@;
        if is_foreign_unregistered(t, plugin, registered) {
            prev.push(target_message(plugin, t, in_mapping))
        } else {
            prev
        }
    }
}

/// The field mapping's source must be registered when its cognitive axis is
/// taken from the source item.
pub open spec fn mapping_source_missing(m: FieldMapping, registered: Seq<String>) -> bool {
    "source."@.is_prefix_of(m.cognitive_axis@) && !names_contain(registered, m.source_type@)
}

/// The errors that one provided action contributes.
pub open spec fn action_errors(plugin: Seq<char>, a: ProvidedAction, registered: Seq<String>) -> Seq<Seq<char>> {
    target_errors(plugin, a.target_types@, registered, false) + match a.field_mapping {
        Some(m) => target_errors(plugin, a.target_types@, registered, true) + if mapping_source_missing(m, registered) {
            seq![source_message(plugin, m.source_type@)]
        } else {
            Seq::<Seq<char>>::empty()
        },
        None => Seq::<Seq<char>>::empty(),
    }
}

/// The errors of all provided actions, action by action.
pub open spec fn actions_errors(plugin: Seq<char>, actions: Seq<ProvidedAction>, registered: Seq<String>) -> Seq<Seq<char>>
    decreases actions.len(),
{
    if actions.len() == 0 {
        seq![]
    } else {
        actions_errors(plugin, actions.drop_last(), registered) + action_errors(plugin, actions.last(), registered)
    }
}

/// The errors about the manifest's own fields and columns.
pub open spec fn header_errors(m: PluginManifest) -> Seq<Seq<char>> {
    (if m.name@.len() == 0 { seq!["Plugin name is required."@] } else { Seq::<Seq<char>>::empty() })
    + (if m.display_name@.len() == 0 { seq!["Plugin display_name is required."@] } else { Seq::<Seq<char>>::empty() })
    + (if !has_column(m.columns@, "cognitive_axis"@) { seq![missing_cognitive_message(m.name@)] } else { Seq::<Seq<char>>::empty() })
    + (if !has_column(m.columns@, "context_axis"@) { seq![missing_context_message(m.name@)] } else { Seq::<Seq<char>>::empty() })
}

/// Every error message of a manifest, in the order validation reports them.
pub open spec fn manifest_errors(m: PluginManifest, registered: Seq<String>) -> Seq<Seq<char>> {
    header_errors(m) + actions_errors(m.name@, m.provides_actions@, registered)
}

/// A manifest is valid when it names itself, declares both axis columns,
/// and every action targets only itself or registered plugins (and a
/// field mapping that reads its cognitive axis from the source names a
/// registered source plugin).
pub open spec fn manifest_is_valid(m: PluginManifest, registered: Seq<String>) -> bool {
    &&& m.name@.len() > 0
    &&& m.display_name@.len() > 0
    &&& has_column(m.columns@, "cognitive_axis"@)
    &&& has_column(m.columns@, "context_axis"@)
    &&& forall|i: int, j: int| 0 <= i < m.provides_actions@.len() && 0 <= j < m.provides_actions@[i].target_types@.len()
        ==> !is_foreign_unregistered(#[trigger] m.provides_actions@[i].target_types@[j]@, m.name@, registered)
    &&& forall|i: int| 0 <= i < m.provides_actions@.len() ==> match #[trigger] m.provides_actions@[i].field_mapping {
        Some(f) => !mapping_source_missing(f, registered),
        None => true,
    }
}

proof fn lemma_target_errors_empty(plugin: Seq<char>, targets: Seq<String>, registered: Seq<String>, in_mapping: bool)
    ensures
        target_errors(plugin, targets, registered, in_mapping).len() == 0
            <==> forall|j: int| 0 <= j < targets.len() ==> !is_foreign_unregistered(#[trigger] targets[j]@, plugin, registered),
    decreases targets.len(),
{
    if targets.len() > 0 {
        let init = targets.drop_last();
        lemma_target_errors_empty(plugin, init, registered, in_mapping);
        assert forall|j: int| 0 <= j < init.len() implies #[trigger] init[j] == targets[j] by {}
        if target_errors(plugin, targets, registered, in_mapping).len() == 0 {
            assert forall|j: int| 0 <= j < targets.len() implies !is_foreign_unregistered(#[trigger] targets[j]@, plugin, registered) by {
                if j < init.len() {
                    assert(init[j] == targets[j]);
                }
            }
        } else {
            if forall|j: int| 0 <= j < targets.len() ==> !is_foreign_unregistered(#[trigger] targets[j]@, plugin, registered) {
                assert(!is_foreign_unregistered(targets[targets.len() - 1]@, plugin, registered));
                assert forall|j: int| 0 <= j < init.len() implies !is_foreign_unregistered(#[trigger] init[j]@, plugin, registered) by {
                    assert(init[j] == targets[j]);
                }
            }
        }
    }
}

/// For an action, the set of its errors is empty exactly when its targets
/// and field mapping are acceptable.
proof fn lemma_action_errors_empty(plugin: Seq<char>, a: ProvidedAction, registered: Seq<String>)
    ensures
        action_errors(plugin, a, registered).len() == 0 <==> {
            &&& forall|j: int| 0 <= j < a.target_types@.len() ==> !is_foreign_unregistered(#[trigger] a.target_types@[j]@, plugin, registered)
            &&& match a.field_mapping {
                Some(f) => !mapping_source_missing(f, registered),
                None => true,
            }
        },
{
    lemma_target_errors_empty(plugin, a.target_types@, registered, false);
    lemma_target_errors_empty(plugin, a.target_types@, registered, true);
}

proof fn lemma_actions_errors_empty(plugin: Seq<char>, actions: Seq<ProvidedAction>, registered: Seq<String>)
    ensures
        actions_errors(plugin, actions, registered).len() == 0 <==> forall|i: int| 0 <= i < actions.len()
            ==> #[trigger] action_errors(plugin, actions[i], registered).len() == 0,
    decreases actions.len(),
{
    if actions.len() > 0 {
        let init = actions.drop_last();
        lemma_actions_errors_empty(plugin, init, registered);
        if actions_errors(plugin, actions, registered).len() == 0 {
            assert forall|i: int| 0 <= i < actions.len() implies #[trigger] action_errors(plugin, actions[i], registered).len() == 0 by {
                if i < init.len() {
                    assert(init[i] == actions[i]);
                }
            }
        } else {
            if forall|i: int| 0 <= i < actions.len() ==> #[trigger] action_errors(plugin, actions[i], registered).len() == 0 {
                assert(action_errors(plugin, actions[actions.len() - 1], registered).len() == 0);
                assert forall|i: int| 0 <= i < init.len() implies #[trigger] action_errors(plugin, init[i], registered).len() == 0 by {
                    assert(init[i] == actions[i]);
                }
            }
        }
    }
}

/// Validation reports no error exactly for the manifests that are valid.
pub proof fn lemma_no_errors_iff_valid(m: PluginManifest, registered: Seq<String>)
    ensures
        manifest_errors(m, registered).len() == 0 <==> manifest_is_valid(m, registered),
{
    let actions = m.provides_actions@;
    lemma_actions_errors_empty(m.name@, actions, registered);
    assert forall|i: int| 0 <= i < actions.len() implies (#[trigger] action_errors(m.name@, actions[i], registered).len() == 0 <==> {
        &&& forall|j: int| 0 <= j < actions[i].target_types@.len() ==> !is_foreign_unregistered(#[trigger] actions[i].target_types@[j]@, m.name@, registered)
        &&& match actions[i].field_mapping {
            Some(f) => !mapping_source_missing(f, registered),
            None => true,
        }
    }) by {
        lemma_action_errors_empty(m.name@, actions[i], registered);
    }
    if manifest_is_valid(m, registered) {
        assert forall|i: int| 0 <= i < actions.len() implies #[trigger] action_errors(m.name@, actions[i], registered).len() == 0 by {
            assert(match actions[i].field_mapping {
                Some(f) => !mapping_source_missing(f, registered),
                None => true,
            });
            assert forall|j: int| 0 <= j < actions[i].target_types@.len() implies !is_foreign_unregistered(#[trigger] actions[i].target_types@[j]@, m.name@, registered) by {}
        }
    }
    if manifest_errors(m, registered).len() == 0 {
        assert forall|i: int, j: int| 0 <= i < actions.len() && 0 <= j < actions[i].target_types@.len()
            implies !is_foreign_unregistered(#[trigger] actions[i].target_types@[j]@, m.name@, registered) by {
            assert(action_errors(m.name@, actions[i], registered).len() == 0);
        }
        assert forall|i: int| 0 <= i < actions.len() implies match #[trigger] actions[i].field_mapping {
            Some(f) => !mapping_source_missing(f, registered),
            None => true,
        } by {
            assert(action_errors(m.name@, actions[i], registered).len() == 0);
        }
    }
}

/// Registering more plugins never invalidates a manifest: one that
/// validates cleanly against `registered` also validates cleanly against
/// any list that holds every name of `registered`.
pub proof fn lemma_valid_under_more_registrations(m: PluginManifest, registered: Seq<String>, more: Seq<String>)
    requires
        manifest_errors(m, registered).len() == 0,
        forall|i: int| 0 <= i < registered.len() ==> names_contain(more, #[trigger] registered[i]@),
    ensures
        manifest_errors(m, more).len() == 0,
{
    lemma_no_errors_iff_valid(m, registered);
    lemma_no_errors_iff_valid(m, more);
    let actions = m.provides_actions@;
    assert forall|n: Seq<char>| names_contain(registered, n) implies names_contain(more, n) by {
        let i = choose|i: int| 0 <= i < registered.len() && #[trigger] registered[i]@ == n;
        assert(names_contain(more, registered[i]@));
    }
    assert forall|i: int, j: int| 0 <= i < actions.len() && 0 <= j < actions[i].target_types@.len()
        implies !is_foreign_unregistered(#[trigger] actions[i].target_types@[j]@, m.name@, more) by {
        assert(!is_foreign_unregistered(actions[i].target_types@[j]@, m.name@, registered));
    }
    assert forall|i: int| 0 <= i < actions.len() implies match #[trigger] actions[i].field_mapping {
        Some(f) => !mapping_source_missing(f, more),
        None => true,
    } by {
        assert(match actions[i].field_mapping {
            Some(f) => !mapping_source_missing(f, registered),
            None => true,
        });
    }
}

/// `f` places the messages of `a`, in order, at positions of `b` that hold
/// the same messages.
pub open spec fn is_embedding(f: spec_fn(int) -> int, a: Seq<Seq<char>>, b: Seq<Seq<char>>) -> bool {
    &&& forall|i: int| 0 <= i < a.len() ==> 0 <= #[trigger] f(i) < b.len() && b[f(i)] == a[i]
    &&& forall|i: int, j: int| 0 <= i < j < a.len() ==> #[trigger] f(i) < #[trigger] f(j)
}

/// `a` is a subsequence of `b`: `b` with some messages left out.
pub open spec fn is_subsequence(a: Seq<Seq<char>>, b: Seq<Seq<char>>) -> bool {
    exists|f: spec_fn(int) -> int| is_embedding(f, a, b)
}

proof fn lemma_subsequence_refl(a: Seq<Seq<char>>)
    ensures
        is_subsequence(a, a),
{
    let f = |i: int| i;
    assert(is_embedding(f, a, a));
}

proof fn lemma_subsequence_push(a: Seq<Seq<char>>, b: Seq<Seq<char>>, x: Seq<char>)
    requires
        is_subsequence(a, b),
    ensures
        is_subsequence(a, b.push(x)),
        is_subsequence(a.push(x), b.push(x)),
{
    let f = choose|f: spec_fn(int) -> int| is_embedding(f, a, b);
    assert(is_embedding(f, a, b.push(x)));
    let g = |i: int| if i < a.len() { f(i) } else { b.len() as int };
    assert forall|i: int| 0 <= i < a.push(x).len() implies 0 <= #[trigger] g(i) < b.push(x).len()
        && b.push(x)[g(i)] == a.push(x)[i] by {
        if i < a.len() {
            assert(g(i) == f(i));
        }
    }
    assert forall|i: int, j: int| 0 <= i < j < a.push(x).len() implies #[trigger] g(i) < #[trigger] g(j) by {
        if j < a.len() {
            assert(g(i) == f(i) && g(j) == f(j));
        } else {
            assert(g(i) == f(i));
        }
    }
    assert(is_embedding(g, a.push(x), b.push(x)));
}

proof fn lemma_subsequence_concat(a1: Seq<Seq<char>>, b1: Seq<Seq<char>>, a2: Seq<Seq<char>>, b2: Seq<Seq<char>>)
    requires
        is_subsequence(a1, b1),
        is_subsequence(a2, b2),
    ensures
        is_subsequence(a1 + a2, b1 + b2),
{
    let f1 = choose|f: spec_fn(int) -> int| is_embedding(f, a1, b1);
    let f2 = choose|f: spec_fn(int) -> int| is_embedding(f, a2, b2);
    let a = a1 + a2;
    let b = b1 + b2;
    let g = |i: int| if i < a1.len() { f1(i) } else { f2(i - a1.len()) + b1.len() };
    assert forall|i: int| 0 <= i < a.len() implies 0 <= #[trigger] g(i) < b.len() && b[g(i)] == a[i] by {
        if i < a1.len() {
            assert(g(i) == f1(i));
            assert(0 <= f1(i) < b1.len());
        } else {
            let k = i - a1.len();
            assert(g(i) == f2(k) + b1.len());
            assert(0 <= f2(k) < b2.len() && b2[f2(k)] == a2[k]);
        }
    }
    assert forall|i: int, j: int| 0 <= i < j < a.len() implies #[trigger] g(i) < #[trigger] g(j) by {
        if j < a1.len() {
            assert(g(i) == f1(i) && g(j) == f1(j));
            assert(f1(i) < f1(j));
        } else if i < a1.len() {
            assert(g(i) == f1(i) && f1(i) < b1.len());
            assert(0 <= f2(j - a1.len()));
        } else {
            assert(f2(i - a1.len()) < f2(j - a1.len()));
        }
    }
    assert(is_embedding(g, a, b));
}

proof fn lemma_target_errors_shrink(
    plugin: Seq<char>,
    targets: Seq<String>,
    registered: Seq<String>,
    more: Seq<String>,
    in_mapping: bool,
)
    requires
        forall|n: Seq<char>| names_contain(registered, n) ==> names_contain(more, n),
    ensures
        is_subsequence(target_errors(plugin, targets, more, in_mapping), target_errors(plugin, targets, registered, in_mapping)),
    decreases targets.len(),
{
    if targets.len() == 0 {
        lemma_subsequence_refl(Seq::<Seq<char>>::empty());
    } else {
        let init = targets.drop_last();
        lemma_target_errors_shrink(plugin, init, registered, more, in_mapping);
        let t = targets.last()@;
        let msg = target_message(plugin, t, in_mapping);
        let a = target_errors(plugin, init, more, in_mapping);
        let b = target_errors(plugin, init, registered, in_mapping);
        if is_foreign_unregistered(t, plugin, registered) {
            lemma_subsequence_push(a, b, msg);
        }
    }
}

proof fn lemma_action_errors_shrink(plugin: Seq<char>, act: ProvidedAction, registered: Seq<String>, more: Seq<String>)
    requires
        forall|n: Seq<char>| names_contain(registered, n) ==> names_contain(more, n),
    ensures
        is_subsequence(action_errors(plugin, act, more), action_errors(plugin, act, registered)),
{
    lemma_target_errors_shrink(plugin, act.target_types@, registered, more, false);
    match act.field_mapping {
        Some(m) => {
            lemma_target_errors_shrink(plugin, act.target_types@, registered, more, true);
            let src_more = if mapping_source_missing(m, more) {
                seq![source_message(plugin, m.source_type@)]
            } else {
                Seq::<Seq<char>>::empty()
            };
            let src_reg = if mapping_source_missing(m, registered) {
                seq![source_message(plugin, m.source_type@)]
            } else {
                Seq::<Seq<char>>::empty()
            };
            assert(is_subsequence(src_more, src_reg)) by {
                if mapping_source_missing(m, more) {
                    lemma_subsequence_refl(src_reg);
                } else {
                    let f = |i: int| i;
                    assert(is_embedding(f, src_more, src_reg));
                }
            }
            lemma_subsequence_concat(
                target_errors(plugin, act.target_types@, more, true),
                target_errors(plugin, act.target_types@, registered, true),
                src_more,
                src_reg,
            );
            lemma_subsequence_concat(
                target_errors(plugin, act.target_types@, more, false),
                target_errors(plugin, act.target_types@, registered, false),
                target_errors(plugin, act.target_types@, more, true) + src_more,
                target_errors(plugin, act.target_types@, registered, true) + src_reg,
            );
        },
        None => {
            lemma_subsequence_refl(Seq::<Seq<char>>::empty());
            lemma_subsequence_concat(
                target_errors(plugin, act.target_types@, more, false),
                target_errors(plugin, act.target_types@, registered, false),
                Seq::<Seq<char>>::empty(),
                Seq::<Seq<char>>::empty(),
            );
        },
    }
}

proof fn lemma_actions_errors_shrink(plugin: Seq<char>, actions: Seq<ProvidedAction>, registered: Seq<String>, more: Seq<String>)
    requires
        forall|n: Seq<char>| names_contain(registered, n) ==> names_contain(more, n),
    ensures
        is_subsequence(actions_errors(plugin, actions, more), actions_errors(plugin, actions, registered)),
    decreases actions.len(),
{
    if actions.len() == 0 {
        lemma_subsequence_refl(Seq::<Seq<char>>::empty());
    } else {
        lemma_actions_errors_shrink(plugin, actions.drop_last(), registered, more);
        lemma_action_errors_shrink(plugin, actions.last(), registered, more);
        lemma_subsequence_concat(
            actions_errors(plugin, actions.drop_last(), more),
            actions_errors(plugin, actions.drop_last(), registered),
            action_errors(plugin, actions.last(), more),
            action_errors(plugin, actions.last(), registered),
        );
    }
}

/// Registering more plugins never adds an error: against a list that holds
/// every name of `registered`, validation reports a subsequence of what it
/// reports against `registered`.
pub proof fn lemma_errors_shrink_under_more_registrations(m: PluginManifest, registered: Seq<String>, more: Seq<String>)
    requires
        forall|i: int| 0 <= i < registered.len() ==> names_contain(more, #[trigger] registered[i]@),
    ensures
        is_subsequence(manifest_errors(m, more), manifest_errors(m, registered)),
{
    assert forall|n: Seq<char>| names_contain(registered, n) implies names_contain(more, n) by {
        let i = choose|i: int| 0 <= i < registered.len() && #[trigger] registered[i]@ == n;
        assert(names_contain(more, registered[i]@));
    }
    lemma_subsequence_refl(header_errors(m));
    lemma_actions_errors_shrink(m.name@, m.provides_actions@, registered, more);
    lemma_subsequence_concat(
        header_errors(m),
        header_errors(m),
        actions_errors(m.name@, m.provides_actions@, more),
        actions_errors(m.name@, m.provides_actions@, registered),
    );
}

/// Whether `name` is one of `names`.
pub fn contains_name(names: &[String], name: &str) -> (r: bool)
    ensures
        r == names_contain(names@, name@),
{
    let mut i: usize = 0;
    while i < names.len()
        invariant
            i <= names@.len(),
            forall|k: int| 0 <= k < i ==> names@[k]@ != name@,
        decreases names@.len() - i,
    {
        if str_eq(names[i].as_str(), name) {
            return true;
        }
        i = i + 1;
    }
    false
}

fn has_column_named(columns: &Vec<PluginColumn>, name: &str) -> (r: bool)
    ensures
        r == has_column(columns@, name@),
{
    let mut i: usize = 0;
    while i < columns.len()
        invariant
            i <= columns@.len(),
            forall|k: int| 0 <= k < i ==> columns@[k].name@ != name@,
        decreases columns@.len() - i,
    {
        if str_eq(columns[i].name.as_str(), name) {
            return true;
        }
        i = i + 1;
    }
    false
}

fn message_for_target(plugin: &str, target: &str, in_mapping: bool) -> (r: String)
    ensures
        r@ == target_message(plugin@, target@, in_mapping),
{
    let mut r = String::from_str("Plugin '");
    r.append(plugin);
    if in_mapping {
        r.append("' field_mapping references missing plugin '");
        r.append(target);
        r.append("'.");
    } else {
        r.append("' declares actions for '");
        r.append(target);
        r.append("' which is not registered.");
    }
    r
}

fn push_target_errors(
    errors: &mut Vec<String>,
    plugin: &str,
    targets: &Vec<String>,
    registered: &[String],
    in_mapping: bool,
)
    ensures
        views(final(errors)@) == views(old(errors)@) + target_errors(plugin@, targets@, registered@, in_mapping),
{
    let ghost start = views(errors@);
    let mut i: usize = 0;
    while i < targets.len()
        invariant
            i <= targets@.len(),
            views(errors@) == start + target_errors(plugin@, targets@.take(i as int), registered@, in_mapping),
        decreases targets@.len() - i,
    {
        let t = targets[i].as_str();
        proof {
            assert(targets@.take(i + 1).drop_last() =~= targets@.take(i as int));
            assert(targets@.take(i + 1).last() == targets@[i as int]);
        }
        if !str_eq(t, plugin) && !contains_name(registered, t) {
            let msg = message_for_target(plugin, t, in_mapping);
            let ghost prev = errors@;
            errors.push(msg);
            proof {
                assert(views(errors@) =~= views(prev).push(msg@));
            }
        }
        i = i + 1;
    }
    assert(targets@.take(targets@.len() as int) =~= targets@);
}

/// Checks a manifest against the plugins already registered and returns
/// every problem found, in a fixed order: missing name, missing display
/// name, missing axis columns, then per provided action its unregistered
/// targets and field-mapping problems.
pub fn validate_manifest(manifest: &PluginManifest, registered_plugins: &[String]) -> (errors: Vec<String>)
    ensures
        views(errors@) == manifest_errors(*manifest, registered_plugins@),
        errors@.len() == 0 <==> manifest_is_valid(*manifest, registered_plugins@),
{
    proof {
        lemma_no_errors_iff_valid(*manifest, registered_plugins@);
    }
    let mut errors: Vec<String> = Vec::new();
    let plugin = manifest.name.as_str();

    if manifest.name.as_str().is_empty() {
        errors.push(String::from_str("Plugin name is required."));
    }
    if manifest.display_name.as_str().is_empty() {
        errors.push(String::from_str("Plugin display_name is required."));
    }
    let has_cognitive = has_column_named(&manifest.columns, "cognitive_axis");
    let has_context = has_column_named(&manifest.columns, "context_axis");
    if !has_cognitive {
        let mut msg = String::from_str("Plugin '");
        msg.append(plugin);
        msg.append("' is missing the required 'cognitive_axis' column.");
        errors.push(msg);
    }
    if !has_context {
        let mut msg = String::from_str("Plugin '");
        msg.append(plugin);
        msg.append("' is missing the required 'context_axis' column.");
        errors.push(msg);
    }
    assert(views(errors@) =~= header_errors(*manifest));

    let actions = &manifest.provides_actions;
    let mut i: usize = 0;
    while i < actions.len()
        invariant
            i <= actions@.len(),
            plugin@ == manifest.name@,
            views(errors@) == header_errors(*manifest) + actions_errors(plugin@, actions@.take(i as int), registered_plugins@),
        decreases actions@.len() - i,
    {
        let action = &actions[i];
        let ghost before = views(errors@);
        proof {
            assert(actions@.take(i + 1).drop_last() =~= actions@.take(i as int));
        }
        push_target_errors(&mut errors, plugin, &action.target_types, registered_plugins, false);
        let ghost declared = target_errors(plugin@, action.target_types@, registered_plugins@, false);
        match &action.field_mapping {
            Some(mapping) => {
                push_target_errors(&mut errors, plugin, &action.target_types, registered_plugins, true);
                let ghost mapped = target_errors(plugin@, action.target_types@, registered_plugins@, true);
                let ghost mid = views(errors@);
                if str_starts_with(mapping.cognitive_axis.as_str(), "source.")
                    && !contains_name(registered_plugins, mapping.source_type.as_str()) {
                    let mut msg = String::from_str("Plugin '");
                    msg.append(plugin);
                    msg.append("' field_mapping references missing source plugin '");
                    msg.append(mapping.source_type.as_str());
                    msg.append("'.");
                    let ghost prev = errors@;
                    errors.push(msg);
                    proof {
                        assert(views(errors@) =~= views(prev).push(msg@));
                        assert(views(errors@) =~= before + (declared + (mapped + seq![msg@])));
                    }
                } else {
                    assert(views(errors@) =~= before + (declared + (mapped + Seq::<Seq<char>>::empty())));
                }
            },
            None => {
                assert(views(errors@) =~= before + (declared + Seq::<Seq<char>>::empty()));
            },
        }
        proof {
            assert(views(errors@) =~= before + action_errors(plugin@, *action, registered_plugins@));
        }
        i = i + 1;
    }
    assert(actions@.take(actions@.len() as int) =~= actions@);
    errors
}


// ---------------------------------------------------------------------------
// Network-isolation scanner
// ---------------------------------------------------------------------------

/// A file under a plugin's `ui` directory: its path as displayed, its
/// file name (the last component of the path, as `Path::file_name` gives
/// it on the running platform), and its text.
#[derive(Debug, Clone)]
pub struct SourceFile {
    pub path: String,
    pub file_name: String,
    pub content: String,
}

/// The extension of a file name, as `Path::extension` gives it: the text
/// after the last `.`, where a leading `.` does not start one.
pub open spec fn extension_of(name: Seq<char>) -> Option<Seq<char>> {
    let d = last_pos(name, '.');
    if d <= 0 {
        None
    } else {
        Some(name.skip(d + 1))
    }
}

/// Extensions of the files that are scanned: script and markup sources.
pub open spec fn is_code_extension(e: Seq<char>) -> bool {
    e == "js"@ || e == "html"@ || e == "htm"@ || e == "ts"@ || e == "jsx"@ || e == "tsx"@
}

pub open spec fn is_code_name(name: Seq<char>) -> bool {
    match extension_of(name) {
        Some(e) => is_code_extension(e),
        None => false,
    }
}

pub open spec fn fetch_violation(path: Seq<char>) -> Seq<char> {
    path + ": contains fetch() call — plugins must not make direct network requests"@
}

pub open spec fn xhr_violation(path: Seq<char>) -> Seq<char> {
    path + ": contains XMLHttpRequest — plugins must not make direct network requests"@
}

pub open spec fn axios_violation(path: Seq<char>) -> Seq<char> {
    path + ": contains axios usage — plugins must not make direct network requests"@
}

/// The violations found in one source text: a `fetch(` call (unless the
/// file uses the `saya://` protocol), `XMLHttpRequest`, and `axios` usage.
pub open spec fn content_violations(path: Seq<char>, content: Seq<char>) -> Seq<Seq<char>> {
    (if has_substring(content, "fetch("@) && !has_substring(content, "saya://"@) {
        seq![fetch_violation(path)]
    } else {
        Seq::<Seq<char>>::empty()
    }) + (if has_substring(content, "XMLHttpRequest"@) {
        seq![xhr_violation(path)]
    } else {
        Seq::<Seq<char>>::empty()
    }) + (if has_substring(content, "axios("@) || has_substring(content, "axios."@) {
        seq![axios_violation(path)]
    } else {
        Seq::<Seq<char>>::empty()
    })
}

/// Each kind of network access in a file's text is reported once, exactly
/// when it occurs: a `fetch(` call (unless the file uses `saya://`),
/// `XMLHttpRequest`, and any `axios(` call or `axios.` method; in that
/// order, and nothing else.
pub proof fn lemma_violations_match_usage(path: Seq<char>, content: Seq<char>)
    ensures
        ({
            let v = content_violations(path, content);
            let fetch = !has_substring(content, "saya://"@) && has_substring(content, "fetch("@);
            let xhr = has_substring(content, "XMLHttpRequest"@);
            let axios = has_substring(content, "axios."@) || has_substring(content, "axios("@);
            &&& v.len() == (if fetch { 1int } else { 0int }) + (if xhr { 1int } else { 0int }) + (if axios { 1int } else { 0int })
            &&& forall|i: int| 0 <= i < v.len() ==> v[i] == fetch_violation(path) || v[i] == xhr_violation(path)
                || v[i] == axios_violation(path)
            &&& (fetch <==> v.contains(fetch_violation(path)))
            &&& (xhr <==> v.contains(xhr_violation(path)))
            &&& (axios <==> v.contains(axios_violation(path)))
            &&& forall|i: int, j: int| 0 <= i < j < v.len() ==> v[i] != v[j]
        }),
{
    reveal_strlit(": contains fetch() call — plugins must not make direct network requests");
    reveal_strlit(": contains XMLHttpRequest — plugins must not make direct network requests");
    reveal_strlit(": contains axios usage — plugins must not make direct network requests");
    let f = fetch_violation(path);
    let x = xhr_violation(path);
    let a = axios_violation(path);
    assert(f.len() != x.len() && f.len() != a.len() && x.len() != a.len());
    assert(f != x && f != a && x != a);
    let v = content_violations(path, content);
    let fetch = !has_substring(content, "saya://"@) && has_substring(content, "fetch("@);
    let xhr = has_substring(content, "XMLHttpRequest"@);
    let axios = has_substring(content, "axios."@) || has_substring(content, "axios("@);
    let s1 = if fetch { seq![f] } else { Seq::<Seq<char>>::empty() };
    let s2 = if xhr { seq![x] } else { Seq::<Seq<char>>::empty() };
    let s3 = if axios { seq![a] } else { Seq::<Seq<char>>::empty() };
    assert(v == s1 + s2 + s3);
    assert forall|i: int| 0 <= i < v.len() implies v[i] == (if i < s1.len() { f } else if i < s1.len() + s2.len() { x } else { a }) by {
        if i < s1.len() {
            assert(v[i] == s1[i]);
        } else if i < s1.len() + s2.len() {
            assert(v[i] == s2[i - s1.len()]);
        } else {
            assert(v[i] == s3[i - s1.len() - s2.len()]);
        }
    }
    if fetch {
        assert(v[0] == f);
    }
    if xhr {
        assert(v[s1.len() as int] == x);
    }
    if axios {
        assert(v[(s1.len() + s2.len()) as int] == a);
    }
}

/// The violations of all code files, file by file in the given order.
pub open spec fn scan_violations(files: Seq<SourceFile>) -> Seq<Seq<char>>
    decreases files.len(),
{
    if files.len() == 0 {
        seq![]
    } else {
        let f = files.last();
        scan_violations(files.drop_last()) + if is_code_name(f.file_name@) {
            content_violations(f.path@, f.content@)
        } else {
            Seq::<Seq<char>>::empty()
        }
    }
}

/// Scanning is file by file: the violations of two groups of files are
/// those of the first group followed by those of the second, so a
/// directory tree may be scanned in parts.
pub proof fn lemma_scan_splits(first: Seq<SourceFile>, second: Seq<SourceFile>)
    ensures
        scan_violations(first + second) == scan_violations(first) + scan_violations(second),
    decreases second.len(),
{
    if second.len() == 0 {
        assert(first + second =~= first);
        assert(scan_violations(first) + scan_violations(second) =~= scan_violations(first));
    } else {
        lemma_scan_splits(first, second.drop_last());
        assert((first + second).drop_last() =~= first + second.drop_last());
        assert((first + second).last() == second.last());
        let f = second.last();
        let own = if is_code_name(f.file_name@) {
            content_violations(f.path@, f.content@)
        } else {
            Seq::<Seq<char>>::empty()
        };
        assert(scan_violations(first) + scan_violations(second.drop_last()) + own
            =~= scan_violations(first) + (scan_violations(second.drop_last()) + own));
    }
}

/// A file that is not script or markup contributes no violation, whatever
/// its text.
pub proof fn lemma_scan_skips_other_files(files: Seq<SourceFile>, other: SourceFile)
    requires
        !is_code_name(other.file_name@),
    ensures
        scan_violations(files.push(other)) == scan_violations(files),
{
    assert(files.push(other).drop_last() =~= files);
    assert(scan_violations(files) + Seq::<Seq<char>>::empty() =~= scan_violations(files));
}

/// Whether a file with the given name is one that the scanner reads.
pub fn is_code_file(file_name: &str) -> (r: bool)
    ensures
        r == is_code_name(file_name@),
{
    let nv = chars_of(file_name);
    let len = nv.len();
    match rfind_char(&nv, '.') {
        Some(d) => {
            if d == 0 {
                return false;
            }
            let ext = substring(file_name, d + 1, len);
            assert(ext@ == nv@.skip(d + 1));
            let e = ext.as_str();
            str_eq(e, "js") || str_eq(e, "html") || str_eq(e, "htm") || str_eq(e, "ts") || str_eq(e, "jsx")
                || str_eq(e, "tsx")
        },
        None => false,
    }
}

fn violation_message(path: &str, what: &str) -> (r: String)
    ensures
        r@ == path@ + what@,
{
    let mut r = String::from_str(path);
    r.append(what);
    r
}

/// The violations found in one file's text.
pub fn scan_content(path: &str, content: &str) -> (violations: Vec<String>)
    ensures
        views(violations@) == content_violations(path@, content@),
{
    let mut violations: Vec<String> = Vec::new();
    if str_contains(content, "fetch(") && !str_contains(content, "saya://") {
        violations.push(violation_message(path, ": contains fetch() call — plugins must not make direct network requests"));
    }
    let ghost first = views(violations@);
    if str_contains(content, "XMLHttpRequest") {
        violations.push(violation_message(path, ": contains XMLHttpRequest — plugins must not make direct network requests"));
    }
    let ghost second = views(violations@);
    if str_contains(content, "axios(") || str_contains(content, "axios.") {
        violations.push(violation_message(path, ": contains axios usage — plugins must not make direct network requests"));
    }
    assert(views(violations@) =~= content_violations(path@, content@));
    violations
}

/// Scans the files of a plugin's user interface for direct network access.
/// Only script and markup files (`js`, `html`, `htm`, `ts`, `jsx`, `tsx`)
/// are read; each contributes its violations in the order `fetch()`,
/// `XMLHttpRequest`, `axios`.
pub fn scan_for_network_calls(files: &[SourceFile]) -> (violations: Vec<String>)
    ensures
        views(violations@) == scan_violations(files@),
{
    let mut violations: Vec<String> = Vec::new();
    let mut i: usize = 0;
    while i < files.len()
        invariant
            i <= files@.len(),
            views(violations@) == scan_violations(files@.take(i as int)),
        decreases files@.len() - i,
    {
        let f = &files[i];
        proof {
            assert(files@.take(i + 1).drop_last() =~= files@.take(i as int));
            assert(files@.take(i + 1).last() == files@[i as int]);
        }
        if is_code_file(f.file_name.as_str()) {
            let mut found = scan_content(f.path.as_str(), f.content.as_str());
            let ghost prev = views(violations@);
            let ghost add = views(found@);
            violations.append(&mut found);
            assert(views(violations@) =~= prev + add);
        }
        i = i + 1;
    }
    assert(files@.take(files@.len() as int) =~= files@);
    violations
}

} // verus!
