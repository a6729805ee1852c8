//! The shell hook: what has to change in a shell's environment so that it
//! matches the patch wanted now.
//!
//! The hook has no memory of its own.  What it did last is read back from
//! the record it left in the shell, undone, and replaced: variables that are
//! no longer wanted are unset, new and changed ones are set, and the
//! directories it put in front of the search path give way to the new ones.

use crate::env::{EnvironmentPatch, PatchView, MARKER, PATH};
use crate::marker::{decode, decoded, encode, encoded, lemma_decode_encoded};
use crate::ordered_map::{get, has_key, key_index, len, lookup, pair_at, unique_keys, Pair};
use crate::path::{
    all_colon_free, colon_free, join, join_path, lemma_without_leading_segment,
    lemma_without_segment_colon_free, remove_segment, split, split_path, without_segment,
};
use crate::text::{lemma_join_split, lemma_split_on_free, lemma_split_on_join};
use crate::shell::Shell;
use crate::text::{clone_strings, str_eq, views};
use vstd::prelude::*;

verus! {

/// One change to a shell's environment.
#[derive(Debug, Clone, PartialEq, Eq)]
pub enum EnvChange {
    Assign { name: String, value: String },
    Unset { name: String },
}

/// A change as plain data.
pub enum ChangeView {
    Assign { name: Seq<char>, value: Seq<char> },
    Unset { name: Seq<char> },
}

impl View for EnvChange {
    type V = ChangeView;

    open spec fn view(&self) -> ChangeView {
        match self {
            EnvChange::Assign { name, value } => ChangeView::Assign { name: name@, value: value@ },
            EnvChange::Unset { name } => ChangeView::Unset { name: name@ },
        }
    }
}

impl ChangeView {
    /// The variable that the change is about.
    pub open spec fn name(self) -> Seq<char> {
        match self {
            ChangeView::Assign { name, value } => name,
            ChangeView::Unset { name } => name,
        }
    }
}

/// The changes as plain data.
pub open spec fn change_views(changes: Seq<EnvChange>) -> Seq<ChangeView> {
    changes.map_values(|c: EnvChange| c@)
}

/// The variables of `prior` that `new` no longer has, each unset, in the
/// order of `prior`.
pub open spec fn unsets(prior: Seq<Pair>, new: Seq<Pair>) -> Seq<ChangeView>
    decreases prior.len(),
{
    if prior.len() == 0 {
        Seq::empty()
    } else {
        let front = unsets(prior.drop_last(), new);
        if has_key(new, prior.last().0) {
            front
        } else {
            front.push(ChangeView::Unset { name: prior.last().0 })
        }
    }
}

/// The variables of `new` that `prior` lacks or has with another value, each
/// set, in the order of `new`.
pub open spec fn sets(prior: Seq<Pair>, new: Seq<Pair>) -> Seq<ChangeView>
    decreases new.len(),
{
    if new.len() == 0 {
        Seq::empty()
    } else {
        let front = sets(prior, new.drop_last());
        if lookup(prior, new.last().0) == Some(new.last().1) {
            front
        } else {
            front.push(ChangeView::Assign { name: new.last().0, value: new.last().1 })
        }
    }
}

/// The search path after the hook: the directories wanted now, in front of
/// what is left of the path once the directories put there last are taken
/// out.
pub open spec fn next_path(path: Seq<char>, prior: Seq<Seq<char>>, new: Seq<Seq<char>>) -> Seq<
    char,
> {
    join(new + without_segment(split(path), prior))
}

/// What the hook did last, as far as the shell still tells: the patch in the
/// record, or the empty patch where there is no record or none that can be
/// read.
pub open spec fn prior_patch(marker: Option<Seq<char>>) -> PatchView {
    match marker {
        Some(text) => match decoded(text) {
            Some(patch) => patch,
            None => PatchView::empty(),
        },
        None => PatchView::empty(),
    }
}

/// The change to the search path, if it changes.
pub open spec fn path_change(path: Seq<char>, next: Seq<char>) -> Seq<ChangeView> {
    if next == path {
        Seq::empty()
    } else {
        seq![ChangeView::Assign { name: PATH@, value: next }]
    }
}

/// The change to the record, if it changes.
pub open spec fn marker_change(marker: Option<Seq<char>>, next: Seq<char>) -> Seq<ChangeView> {
    if marker == Some(next) {
        Seq::empty()
    } else {
        seq![ChangeView::Assign { name: MARKER@, value: next }]
    }
}

/// The changes that turn a shell with the given record and search path into
/// one with the patch applied: first the variables to unset, then those to
/// set, then the search path, then the record.
pub open spec fn reconciled(marker: Option<Seq<char>>, path: Seq<char>, patch: PatchView) -> Seq<
    ChangeView,
> {
    let prior = prior_patch(marker);
    unsets(prior.vars, patch.vars) + sets(prior.vars, patch.vars) + path_change(
        path,
        next_path(path, prior.paths, patch.paths),
    ) + marker_change(marker, encoded(patch))
}

/// The value of a variable after the changes, given its value before them.
pub open spec fn value_after(changes: Seq<ChangeView>, name: Seq<char>, before: Option<Seq<char>>)
    -> Option<Seq<char>>
    decreases changes.len(),
{
    if changes.len() == 0 {
        before
    } else {
        match changes.last() {
            ChangeView::Assign { name: n, value } => if n == name {
                Some(value)
            } else {
                value_after(changes.drop_last(), name, before)
            },
            ChangeView::Unset { name: n } => if n == name {
                None
            } else {
                value_after(changes.drop_last(), name, before)
            },
        }
    }
}

/// No change is about the variable `name`.
pub open spec fn leaves_alone(changes: Seq<ChangeView>, name: Seq<char>) -> bool {
    forall|i: int| 0 <= i < changes.len() ==> (#[trigger] changes[i]).name() != name
}

/// Lists the variables of `prior` that `new` no longer has.
fn push_unsets(
    changes: &mut Vec<EnvChange>,
    prior: &EnvironmentPatch,
    new: &EnvironmentPatch,
)
    ensures
        change_views(final(changes)@) == change_views(old(changes)@) + unsets(
            prior@.vars,
            new@.vars,
        ),
{
    let ghost before = change_views(changes@);
    let ghost vars = prior@.vars;
    let count = len(&prior.vars);
    let mut i: usize = 0;
    assert(vars.take(0) == Seq::<Pair>::empty());
    assert(before + unsets(vars.take(0), new@.vars) == before);
    while i < count
        invariant
            i <= count,
            count == vars.len(),
            vars == prior@.vars,
            change_views(changes@) == before + unsets(vars.take(i as int), new@.vars),
        decreases count - i,
    {
        let (name, _value) = pair_at(&prior.vars, i);
        let ghost so_far = change_views(changes@);
        assert(vars.take(i + 1).drop_last() == vars.take(i as int));
        assert(vars.take(i + 1).last().0 == name@);
        if get(&new.vars, name.as_str()).is_none() {
            changes.push(EnvChange::Unset { name: name.clone() });
            assert(change_views(changes@) =~= so_far.push(ChangeView::Unset { name: name@ }));
            assert(change_views(changes@) =~= before + unsets(vars.take(i + 1), new@.vars));
        }
        i += 1;
    }
    assert(vars.take(vars.len() as int) == vars);
}

/// Lists the variables of `new` that `prior` lacks or has with another value.
fn push_sets(changes: &mut Vec<EnvChange>, prior: &EnvironmentPatch, new: &EnvironmentPatch)
    ensures
        change_views(final(changes)@) == change_views(old(changes)@) + sets(
            prior@.vars,
            new@.vars,
        ),
{
    let ghost before = change_views(changes@);
    let ghost vars = new@.vars;
    let count = len(&new.vars);
    let mut i: usize = 0;
    assert(vars.take(0) == Seq::<Pair>::empty());
    assert(before + sets(prior@.vars, vars.take(0)) == before);
    while i < count
        invariant
            i <= count,
            count == vars.len(),
            vars == new@.vars,
            change_views(changes@) == before + sets(prior@.vars, vars.take(i as int)),
        decreases count - i,
    {
        let (name, value) = pair_at(&new.vars, i);
        let ghost so_far = change_views(changes@);
        assert(vars.take(i + 1).drop_last() == vars.take(i as int));
        assert(vars.take(i + 1).last() == (name@, value@));
        let kept = match get(&prior.vars, name.as_str()) {
            Some(old) => str_eq(old.as_str(), value.as_str()),
            None => false,
        };
        if !kept {
            changes.push(EnvChange::Assign { name: name.clone(), value: value.clone() });
            assert(change_views(changes@) =~= so_far.push(
                ChangeView::Assign { name: name@, value: value@ },
            ));
            assert(change_views(changes@) =~= before + sets(prior@.vars, vars.take(i + 1)));
        }
        i += 1;
    }
    assert(vars.take(vars.len() as int) == vars);
}

/// Writes the search path after the hook.
pub fn rewrite_path(path: &str, prior: &Vec<String>, new: &Vec<String>) -> (out: String)
    ensures
        out@ == next_path(path@, views(prior@), views(new@)),
{
    let current = split_path(path);
    let rest = remove_segment(&current, prior);
    let mut all = clone_strings(new);
    let mut k: usize = 0;
    assert(views(all@) =~= views(new@) + views(rest@).take(0));
    while k < rest.len()
        invariant
            k <= rest.len(),
            views(all@) == views(new@) + views(rest@).take(k as int),
        decreases rest.len() - k,
    {
        let ghost before = views(all@);
        all.push(rest[k].clone());
        assert(views(all@) =~= before.push(rest[k as int]@));
        assert(views(rest@).take(k + 1) =~= views(rest@).take(k as int).push(rest[k as int]@));
        k += 1;
    }
    assert(views(rest@).take(rest.len() as int) =~= views(rest@));
    join_path(&all)
}

/// Works out what has to change in the shell.  `marker` is the record the
/// hook left last, if the shell has one, and `path` the shell's search path.
/// A record that cannot be read counts as none.
pub fn reconcile(marker: Option<&str>, path: &str, patch: &EnvironmentPatch) -> (changes: Vec<
    EnvChange,
>)
    ensures
        change_views(changes@) == reconciled(marker_view(marker), path@, patch@),
{
    let prior = match marker {
        Some(text) => match decode(text) {
            Some(read) => read,
            None => EnvironmentPatch::new(),
        },
        None => EnvironmentPatch::new(),
    };
    assert(prior@ == prior_patch(marker_view(marker)));
    let mut changes: Vec<EnvChange> = Vec::new();
    assert(change_views(changes@) =~= Seq::<ChangeView>::empty());
    push_unsets(&mut changes, &prior, patch);
    push_sets(&mut changes, &prior, patch);
    let ghost vars_part = change_views(changes@);
    assert(vars_part =~= unsets(prior@.vars, patch@.vars) + sets(prior@.vars, patch@.vars));
    let next = rewrite_path(path, &prior.path_prepend, &patch.path_prepend);
    if !str_eq(next.as_str(), path) {
        changes.push(EnvChange::Assign { name: PATH.to_owned(), value: next });
    }
    let ghost path_part = change_views(changes@);
    assert(path_part =~= vars_part + path_change(
        path@,
        next_path(path@, prior@.paths, patch@.paths),
    ));
    let record = encode(patch);
    let same = match marker {
        Some(text) => str_eq(text, record.as_str()),
        None => false,
    };
    if !same {
        changes.push(EnvChange::Assign { name: MARKER.to_owned(), value: record });
    }
    assert(change_views(changes@) =~= path_part + marker_change(
        marker_view(marker),
        encoded(patch@),
    ));
    changes
}

/// The record as plain data.
pub open spec fn marker_view(marker: Option<&str>) -> Option<Seq<char>> {
    match marker {
        Some(text) => Some(text@),
        None => None,
    }
}

/// The statements that make the changes, in order.
pub open spec fn statements<S: Shell>(shell: &S, changes: Seq<ChangeView>) -> Seq<char>
    decreases changes.len(),
{
    if changes.len() == 0 {
        Seq::empty()
    } else {
        statements(shell, changes.drop_last()) + match changes.last() {
            ChangeView::Assign { name, value } => shell.set_statement(name, value),
            ChangeView::Unset { name } => shell.unset_statement(name),
        }
    }
}

/// Writes the changes as statements of a shell.
pub fn render<S: Shell>(shell: &S, changes: &Vec<EnvChange>) -> (out: String)
    ensures
        out@ == statements(shell, change_views(changes@)),
{
    let mut out = String::new();
    let ghost all = change_views(changes@);
    let mut i: usize = 0;
    assert(all.take(0) == Seq::<ChangeView>::empty());
    while i < changes.len()
        invariant
            i <= changes.len(),
            all == change_views(changes@),
            out@ == statements(shell, all.take(i as int)),
        decreases changes.len() - i,
    {
        assert(all.take(i + 1).drop_last() == all.take(i as int));
        assert(all.take(i + 1).last() == changes[i as int]@);
        let statement = match &changes[i] {
            EnvChange::Assign { name, value } => shell.set_env(name.as_str(), value.as_str()),
            EnvChange::Unset { name } => shell.unset_env(name.as_str()),
        };
        out.append(statement.as_str());
        i += 1;
    }
    assert(all.take(all.len() as int) == all);
    out
}

/// The hook itself: the statements that bring a shell with the given record
/// and search path in line with the patch.
pub fn hook_env<S: Shell>(shell: &S, marker: Option<&str>, path: &str, patch: &EnvironmentPatch)
    -> (out: String)
    ensures
        out@ == statements(shell, reconciled(marker_view(marker), path@, patch@)),
{
    let changes = reconcile(marker, path, patch);
    render(shell, &changes)
}

/// Only variables of `prior` are unset.
pub proof fn lemma_unsets_names(prior: Seq<Pair>, new: Seq<Pair>)
    ensures
        forall|i: int|
            0 <= i < unsets(prior, new).len() ==> has_key(
                prior,
                (#[trigger] unsets(prior, new)[i]).name(),
            ),
    decreases prior.len(),
{
    if prior.len() > 0 {
        let front = prior.drop_last();
        lemma_unsets_names(front, new);
        assert forall|i: int| 0 <= i < unsets(prior, new).len() implies has_key(
            prior,
            (#[trigger] unsets(prior, new)[i]).name(),
        ) by {
            if i < unsets(front, new).len() {
                let name = unsets(front, new)[i].name();
                let j = key_index(front, name);
                assert(prior[j] == front[j]);
            } else {
                assert(prior[prior.len() - 1].0 == prior.last().0);
            }
        }
    }
}

/// Only variables of `new` are set.
pub proof fn lemma_sets_names(prior: Seq<Pair>, new: Seq<Pair>)
    ensures
        forall|i: int|
            0 <= i < sets(prior, new).len() ==> has_key(
                new,
                (#[trigger] sets(prior, new)[i]).name(),
            ),
    decreases new.len(),
{
    if new.len() > 0 {
        let front = new.drop_last();
        lemma_sets_names(prior, front);
        assert forall|i: int| 0 <= i < sets(prior, new).len() implies has_key(
            new,
            (#[trigger] sets(prior, new)[i]).name(),
        ) by {
            if i < sets(prior, front).len() {
                let name = sets(prior, front)[i].name();
                let j = key_index(front, name);
                assert(new[j] == front[j]);
            } else {
                assert(new[new.len() - 1].0 == new.last().0);
            }
        }
    }
}

/// Changes that leave a variable alone leave its value as it was.
pub proof fn lemma_value_after_alone(
    changes: Seq<ChangeView>,
    name: Seq<char>,
    before: Option<Seq<char>>,
)
    requires
        leaves_alone(changes, name),
    ensures
        value_after(changes, name, before) == before,
    decreases changes.len(),
{
    if changes.len() > 0 {
        let front = changes.drop_last();
        assert(changes.last() == changes[changes.len() - 1]);
        assert(changes.last().name() != name);
        assert(leaves_alone(front, name)) by {
            assert forall|i: int| 0 <= i < front.len() implies (#[trigger] front[i]).name()
                != name by {
                assert(front[i] == changes[i]);
            }
        }
        lemma_value_after_alone(front, name, before);
    }
}

/// Nothing of a patch has to be unset to reach the same patch.
pub proof fn lemma_unsets_self(vars: Seq<Pair>, n: int)
    requires
        0 <= n <= vars.len(),
    ensures
        unsets(vars.take(n), vars) == Seq::<ChangeView>::empty(),
    decreases n,
{
    if n > 0 {
        lemma_unsets_self(vars, n - 1);
        assert(vars.take(n).drop_last() == vars.take(n - 1));
        assert(vars[n - 1].0 == vars.take(n).last().0);
    }
}

/// Nothing of a patch has to be set to reach the same patch.
pub proof fn lemma_sets_self(vars: Seq<Pair>, n: int)
    requires
        0 <= n <= vars.len(),
        unique_keys(vars),
    ensures
        sets(vars, vars.take(n)) == Seq::<ChangeView>::empty(),
    decreases n,
{
    if n > 0 {
        lemma_sets_self(vars, n - 1);
        assert(vars.take(n).drop_last() == vars.take(n - 1));
        let last = vars.take(n).last();
        assert(last == vars[n - 1]);
        assert(has_key(vars, last.0));
        assert(key_index(vars, last.0) == n - 1);
    }
}

/// The search path that the hook wrote is the one it would write again.
pub proof fn lemma_path_settles(path: Seq<char>, prior: Seq<Seq<char>>, new: Seq<Seq<char>>)
    requires
        all_colon_free(new),
    ensures
        next_path(next_path(path, prior, new), new, new) == next_path(path, prior, new),
{
    let rest = without_segment(split(path), prior);
    let list = new + rest;
    lemma_split_on_free(path, ':');
    lemma_without_segment_colon_free(split(path), prior);
    if list.len() > 0 {
        assert(all_colon_free(list)) by {
            assert forall|i: int| 0 <= i < list.len() implies colon_free(#[trigger] list[i]) by {
                if i < new.len() {
                    assert(list[i] == new[i]);
                } else {
                    assert(list[i] == rest[i - new.len()]);
                }
            }
        }
        lemma_split_on_join(list, ':');
        lemma_without_leading_segment(new, rest);
    } else {
        assert(new =~= Seq::<Seq<char>>::empty());
        let blank = Seq::<char>::empty();
        assert(join(list) =~= blank);
        assert(split(blank) == seq![blank]);
        assert(new + seq![blank] =~= seq![blank]);
        assert(join(seq![blank]) == blank);
    }
}

/// With nothing put in front before and nothing to put in front now, the
/// search path stays as the shell has it.
pub proof fn lemma_path_untouched(path: Seq<char>)
    ensures
        next_path(path, Seq::empty(), Seq::empty()) == path,
{
    let none = Seq::<Seq<char>>::empty();
    assert(none + split(path) == split(path));
    lemma_join_split(path, ':');
}

/// The two variables that the hook keeps for itself have different names.
pub proof fn lemma_reserved_names_differ()
    ensures
        PATH@ != MARKER@,
{
    reveal_strlit("PATH");
    reveal_strlit("__RTX_DIFF");
    assert(PATH@.len() == 4);
    assert(MARKER@.len() == 10);
}

/// After the hook's changes the shell holds the record of the patch and the
/// search path that the hook worked out.
pub proof fn lemma_values_after_hook(marker: Option<Seq<char>>, path: Seq<char>, patch: PatchView)
    requires
        patch.well_formed(),
    ensures
        value_after(reconciled(marker, path, patch), MARKER@, marker) == Some(encoded(patch)),
        value_after(reconciled(marker, path, patch), PATH@, Some(path)) == Some(
            next_path(path, prior_patch(marker).paths, patch.paths),
        ),
{
    let prior = prior_patch(marker);
    let next = next_path(path, prior.paths, patch.paths);
    let a = unsets(prior.vars, patch.vars);
    let b = sets(prior.vars, patch.vars);
    let p = path_change(path, next);
    let m = marker_change(marker, encoded(patch));
    let vars = a + b;
    lemma_reserved_names_differ();
    lemma_unsets_names(prior.vars, patch.vars);
    lemma_sets_names(prior.vars, patch.vars);
    assert(prior.well_formed());
    assert forall|name: Seq<char>| name == PATH@ || name == MARKER@ implies leaves_alone(
        vars,
        name,
    ) by {
        assert forall|i: int| 0 <= i < vars.len() implies (#[trigger] vars[i]).name() != name by {
            if i < a.len() {
                assert(vars[i] == a[i]);
            } else {
                assert(vars[i] == b[i - a.len()]);
            }
        }
    }
    let upto_path = vars + p;
    assert(reconciled(marker, path, patch) == upto_path + m);
    // The search path.
    if p.len() == 0 {
        assert(upto_path == vars);
        lemma_value_after_alone(vars, PATH@, Some(path));
    } else {
        assert(upto_path.last() == p[0]);
    }
    assert(value_after(upto_path, PATH@, Some(path)) == Some(next));
    if m.len() == 0 {
        assert(upto_path + m == upto_path);
        assert(leaves_alone(upto_path, MARKER@)) by {
            assert forall|i: int| 0 <= i < upto_path.len() implies (#[trigger] upto_path[i]).name()
                != MARKER@ by {
                if i < vars.len() {
                    assert(upto_path[i] == vars[i]);
                } else {
                    assert(upto_path[i] == p[i - vars.len()]);
                }
            }
        }
        lemma_value_after_alone(upto_path, MARKER@, marker);
    } else {
        let all = upto_path + m;
        assert(all.last() == m[0]);
        assert(all.drop_last() == upto_path);
    }
}

/// Changes made one after the other: the value after the first is the value
/// before the second.
pub proof fn lemma_value_after_concat(
    first: Seq<ChangeView>,
    second: Seq<ChangeView>,
    name: Seq<char>,
    before: Option<Seq<char>>,
)
    ensures
        value_after(first + second, name, before) == value_after(
            second,
            name,
            value_after(first, name, before),
        ),
    decreases second.len(),
{
    if second.len() == 0 {
        assert(first + second == first);
    } else {
        lemma_value_after_concat(first, second.drop_last(), name, before);
        assert((first + second).drop_last() == first + second.drop_last());
        assert((first + second).last() == second.last());
    }
}

/// What unsetting does to a variable: one that the old patch had and the new
/// one has not is gone, any other is as before.
pub proof fn lemma_value_after_unsets(
    prior: Seq<Pair>,
    new: Seq<Pair>,
    name: Seq<char>,
    before: Option<Seq<char>>,
)
    ensures
        value_after(unsets(prior, new), name, before) == if has_key(prior, name) && !has_key(
            new,
            name,
        ) {
            None
        } else {
            before
        },
    decreases prior.len(),
{
    if prior.len() > 0 {
        let front = prior.drop_last();
        lemma_value_after_unsets(front, new, name, before);
        let last = prior.last();
        assert(prior[prior.len() - 1] == last);
        if has_key(front, name) {
            let at = key_index(front, name);
            assert(prior[at] == front[at]);
        }
        if has_key(prior, name) && last.0 != name {
            let at = key_index(prior, name);
            assert(front[at] == prior[at]);
        }
        if !has_key(new, last.0) {
            assert(unsets(prior, new).drop_last() == unsets(front, new));
        }
    }
}

/// What setting does to a variable: one that the new patch has, and that the
/// old one lacks or has with another value, takes the new value; any other
/// is as before.
pub proof fn lemma_value_after_sets(
    prior: Seq<Pair>,
    new: Seq<Pair>,
    name: Seq<char>,
    before: Option<Seq<char>>,
)
    requires
        unique_keys(new),
    ensures
        value_after(sets(prior, new), name, before) == if has_key(new, name) && lookup(
            prior,
            name,
        ) != lookup(new, name) {
            lookup(new, name)
        } else {
            before
        },
    decreases new.len(),
{
    if new.len() > 0 {
        let front = new.drop_last();
        let last = new.last();
        assert(new[new.len() - 1] == last);
        assert(unique_keys(front)) by {
            assert forall|i: int, j: int|
                0 <= i < front.len() && 0 <= j < front.len() && (#[trigger] front[i]).0 == (
                #[trigger] front[j]).0 implies i == j by {
                assert(front[i] == new[i]);
                assert(front[j] == new[j]);
            }
        }
        lemma_value_after_sets(prior, front, name, before);
        if has_key(front, name) {
            let at = key_index(front, name);
            assert(new[at] == front[at]);
            assert(has_key(new, name));
            assert(key_index(new, name) == at);
            assert(last.0 != name);
        }
        if has_key(new, name) {
            let at = key_index(new, name);
            if at < front.len() {
                assert(front[at] == new[at]);
            } else {
                assert(last.0 == name);
            }
        }
        if lookup(prior, last.0) != Some(last.1) {
            assert(sets(prior, new).drop_last() == sets(prior, front));
        }
    }
}

/// The hook does what the patch asks.  Take any variable other than the two
/// that the hook keeps for itself, and suppose that the shell still holds
/// for it what the hook set last, if the hook set it.  After the changes the
/// variable has the value that the patch gives it; where the patch does not
/// name it, it is gone if the hook had set it, and left as the shell has it
/// otherwise.
pub proof fn lemma_hook_applies_patch(
    marker: Option<Seq<char>>,
    path: Seq<char>,
    patch: PatchView,
    name: Seq<char>,
    before: Option<Seq<char>>,
)
    requires
        patch.well_formed(),
        name != PATH@,
        name != MARKER@,
        has_key(prior_patch(marker).vars, name) ==> before == lookup(
            prior_patch(marker).vars,
            name,
        ),
    ensures
        value_after(reconciled(marker, path, patch), name, before) == if has_key(
            patch.vars,
            name,
        ) {
            lookup(patch.vars, name)
        } else if has_key(prior_patch(marker).vars, name) {
            None
        } else {
            before
        },
{
    let prior = prior_patch(marker);
    let a = unsets(prior.vars, patch.vars);
    let b = sets(prior.vars, patch.vars);
    let p = path_change(path, next_path(path, prior.paths, patch.paths));
    let m = marker_change(marker, encoded(patch));
    lemma_value_after_concat(a + b + p, m, name, before);
    lemma_value_after_concat(a + b, p, name, before);
    lemma_value_after_concat(a, b, name, before);
    lemma_value_after_unsets(prior.vars, patch.vars, name, before);
    lemma_value_after_sets(prior.vars, patch.vars, name, value_after(a, name, before));
    let after_vars = value_after(a + b, name, before);
    assert(leaves_alone(p, name));
    lemma_value_after_alone(p, name, after_vars);
    assert(leaves_alone(m, name));
    lemma_value_after_alone(m, name, value_after(a + b + p, name, before));
}

/// After the hook the search path lists the directories of the patch first,
/// and behind them what the shell had apart from the directories that the
/// hook put there last.
pub proof fn lemma_path_after_hook(path: Seq<char>, prior: Seq<Seq<char>>, new: Seq<Seq<char>>)
    requires
        all_colon_free(new),
        new.len() > 0,
    ensures
        split(next_path(path, prior, new)) == new + without_segment(split(path), prior),
{
    let rest = without_segment(split(path), prior);
    let list = new + rest;
    lemma_split_on_free(path, ':');
    lemma_without_segment_colon_free(split(path), prior);
    assert(all_colon_free(list)) by {
        assert forall|i: int| 0 <= i < list.len() implies colon_free(#[trigger] list[i]) by {
            if i < new.len() {
                assert(list[i] == new[i]);
            } else {
                assert(list[i] == rest[i - new.len()]);
            }
        }
    }
    lemma_split_on_join(list, ':');
}

/// Run twice with nothing changed in between, the hook changes nothing the
/// second time: from the record and the search path that its first run
/// leaves, the same patch asks for no change at all.
pub proof fn lemma_hook_idempotent(marker: Option<Seq<char>>, path: Seq<char>, patch: PatchView)
    requires
        patch.well_formed(),
    ensures
        ({
            let first = reconciled(marker, path, patch);
            let record = value_after(first, MARKER@, marker);
            let search = value_after(first, PATH@, Some(path));
            search is Some && reconciled(record, search->0, patch) == Seq::<ChangeView>::empty()
        }),
{
    let prior = prior_patch(marker);
    let next = next_path(path, prior.paths, patch.paths);
    lemma_values_after_hook(marker, path, patch);
    lemma_decode_encoded(patch);
    assert(prior_patch(Some(encoded(patch))) == patch);
    lemma_unsets_self(patch.vars, patch.vars.len() as int);
    lemma_sets_self(patch.vars, patch.vars.len() as int);
    assert(patch.vars.take(patch.vars.len() as int) == patch.vars);
    lemma_path_settles(path, prior.paths, patch.paths);
}

/// The record that the hook leaves is read back, on the next run, as the
/// very patch that the hook applied.
pub proof fn lemma_hook_round_trip(marker: Option<Seq<char>>, path: Seq<char>, patch: PatchView)
    requires
        patch.well_formed(),
    ensures
        prior_patch(value_after(reconciled(marker, path, patch), MARKER@, marker)) == patch,
{
    lemma_values_after_hook(marker, path, patch);
    lemma_decode_encoded(patch);
}

} // verus!
