//! The data behind the task list: each task with its tags shown as the list
//! shows them, and a fresh keyboard shortcut for every tag, project level,
//! filter, task number and task uuid.
use indexmap::IndexMap;
use vstd::prelude::*;
use crate::shortcut::{ShortcutSet, ShortcutError, make_shortcut, is_shortcut, holds_both_lengths};
use crate::string_map::StringMap;
use crate::task::{
    Task, TaskView, task_entries, entry_tasks, task_count, task_at, replace_task_at, copy_opt,
};
use crate::filters::{project_keys, project_key_list, lemma_project_keys_end_with_project};
use crate::text::{
    split_on, decimal, string_views, split_by, concatenate, decimal_string, contains_text,
    lemma_split_len,
};

verus! {

/// The texts of a list, as a set.
pub open spec fn text_set(v: Seq<String>) -> Set<Seq<char>> {
    string_views(v).to_set()
}

/// How a tag is shown: a keyword as it is, any other tag behind a `+`.
pub open spec fn shown_tag(tag: Seq<char>, keywords: Set<Seq<char>>) -> Seq<char> {
    if keywords.contains(tag) {
        tag
    } else {
        "+"@ + tag
    }
}

/// The tags of a list, each as it is shown.
pub open spec fn shown_tags(tags: Seq<Seq<char>>, keywords: Set<Seq<char>>) -> Seq<Seq<char>> {
    tags.map_values(|g: Seq<char>| shown_tag(g, keywords))
}

/// A task as the list shows it: its tags shown, everything else as it was.
pub open spec fn shown_task(t: TaskView, keywords: Set<Seq<char>>) -> TaskView {
    TaskView {
        tags: match t.tags {
            Some(ts) => Some(shown_tags(ts, keywords)),
            None => None,
        },
        ..t
    }
}

/// The tag keys that a task brings.
pub open spec fn tag_keys(t: TaskView, keywords: Set<Seq<char>>) -> Set<Seq<char>> {
    match t.tags {
        Some(ts) => shown_tags(ts, keywords).to_set(),
        None => Set::empty(),
    }
}

/// The number of tags of a task.
pub open spec fn tag_count(t: TaskView) -> nat {
    match t.tags {
        Some(ts) => ts.len(),
        None => 0,
    }
}

/// Whether the project keys of a task are added: it has a project, and the
/// project's own text is not yet a key.
pub open spec fn project_added(keys: Set<Seq<char>>, t: TaskView) -> bool {
    match t.project {
        Some(p) => !keys.contains(p),
        None => false,
    }
}

/// The tag keys after one more task.
pub open spec fn after_task(keys: Set<Seq<char>>, t: TaskView, keywords: Set<Seq<char>>) -> Set<
    Seq<char>,
> {
    let with_tags = keys + tag_keys(t, keywords);
    if project_added(with_tags, t) {
        with_tags + project_keys(t.project->0).to_set()
    } else {
        with_tags
    }
}

/// The number of shortcuts that one more task takes: one per tag, one per
/// project key added, one for its number and one for its uuid.
pub open spec fn calls_of_task(keys: Set<Seq<char>>, t: TaskView, keywords: Set<Seq<char>>) -> nat {
    let with_tags = keys + tag_keys(t, keywords);
    tag_count(t) + (if project_added(with_tags, t) {
        project_keys(t.project->0).len()
    } else {
        0nat
    }) + 2
}

/// The tag keys after the tasks `ts`, in order.
pub open spec fn keys_after_tasks(ts: Seq<TaskView>, keywords: Set<Seq<char>>) -> Set<Seq<char>>
    decreases ts.len(),
{
    if ts.len() == 0 {
        Set::empty()
    } else {
        after_task(keys_after_tasks(ts.drop_last(), keywords), ts.last(), keywords)
    }
}

/// The number of shortcuts that the tasks `ts` take.
pub open spec fn calls_after_tasks(ts: Seq<TaskView>, keywords: Set<Seq<char>>) -> nat
    decreases ts.len(),
{
    if ts.len() == 0 {
        0
    } else {
        calls_after_tasks(ts.drop_last(), keywords) + calls_of_task(
            keys_after_tasks(ts.drop_last(), keywords),
            ts.last(),
            keywords,
        )
    }
}

/// The keys of the tasks: the decimal number and the uuid of each.
pub open spec fn task_keys(ts: Seq<TaskView>) -> Set<Seq<char>>
    decreases ts.len(),
{
    if ts.len() == 0 {
        Set::empty()
    } else {
        task_keys(ts.drop_last()).insert(decimal(ts.last().id as nat)).insert(ts.last().uuid)
    }
}

/// Whether a filter brings no key: it is a key already, or a keyword.
pub open spec fn filter_skipped(keys: Set<Seq<char>>, f: Seq<char>, keywords: Set<Seq<char>>) -> bool {
    keys.contains(f) || keywords.contains(f)
}

/// The tag keys after one more filter: `@` followed by the filter, unless it
/// is skipped.
pub open spec fn after_filter(keys: Set<Seq<char>>, f: Seq<char>, keywords: Set<Seq<char>>) -> Set<
    Seq<char>,
> {
    if filter_skipped(keys, f, keywords) {
        keys
    } else {
        keys.insert("@"@ + f)
    }
}

/// The number of shortcuts that one more filter takes: none when skipped,
/// one for a tag, and otherwise one per dot-separated part.
pub open spec fn calls_of_filter(
    keys: Set<Seq<char>>,
    f: Seq<char>,
    keywords: Set<Seq<char>>,
    tag_filters: Set<Seq<char>>,
) -> nat {
    if filter_skipped(keys, f, keywords) {
        0
    } else if tag_filters.contains(f) {
        1
    } else {
        split_on(f, '.').len()
    }
}

/// The tag keys after the filters `fs`, in order, starting from `keys`.
pub open spec fn keys_after_filters(
    keys: Set<Seq<char>>,
    fs: Seq<Seq<char>>,
    keywords: Set<Seq<char>>,
) -> Set<Seq<char>>
    decreases fs.len(),
{
    if fs.len() == 0 {
        keys
    } else {
        after_filter(keys_after_filters(keys, fs.drop_last(), keywords), fs.last(), keywords)
    }
}

/// The number of shortcuts that the filters `fs` take, starting from `keys`.
pub open spec fn calls_after_filters(
    keys: Set<Seq<char>>,
    fs: Seq<Seq<char>>,
    keywords: Set<Seq<char>>,
    tag_filters: Set<Seq<char>>,
) -> nat
    decreases fs.len(),
{
    if fs.len() == 0 {
        0
    } else {
        calls_after_filters(keys, fs.drop_last(), keywords, tag_filters) + calls_of_filter(
            keys_after_filters(keys, fs.drop_last(), keywords),
            fs.last(),
            keywords,
            tag_filters,
        )
    }
}

/// No two keys of `m` share a value.
pub open spec fn injective(m: Map<Seq<char>, Seq<char>>) -> bool {
    forall|a: Seq<char>, b: Seq<char>|
        #![trigger m[a], m[b]]
        m.contains_key(a) && m.contains_key(b) && a != b ==> m[a] != m[b]
}

/// No value of `m1` is a value of `m2`.
pub open spec fn disjoint_values(m1: Map<Seq<char>, Seq<char>>, m2: Map<Seq<char>, Seq<char>>) -> bool {
    forall|a: Seq<char>, b: Seq<char>|
        #![trigger m1[a], m2[b]]
        m1.contains_key(a) && m2.contains_key(b) ==> m1[a] != m2[b]
}

/// Every value of `m` is in `s`.
pub open spec fn values_within(m: Map<Seq<char>, Seq<char>>, s: Set<Seq<char>>) -> bool {
    forall|a: Seq<char>| #[trigger] m.contains_key(a) ==> s.contains(m[a])
}

/// The two maps hand out shortcuts of the set, each at most once over both.
pub open spec fn assignment_ok(sh: ShortcutSet, tags: StringMap, tasks: StringMap) -> bool {
    &&& sh.wf()
    &&& tags.wf()
    &&& tasks.wf()
    &&& injective(tags@)
    &&& injective(tasks@)
    &&& disjoint_values(tags@, tasks@)
    &&& values_within(tags@, sh@)
    &&& values_within(tasks@, sh@)
}

proof fn lemma_insert_fresh(
    a: Map<Seq<char>, Seq<char>>,
    b: Map<Seq<char>, Seq<char>>,
    s: Set<Seq<char>>,
    k: Seq<char>,
    v: Seq<char>,
)
    requires
        injective(a),
        values_within(a, s),
        values_within(b, s),
        disjoint_values(a, b) || disjoint_values(b, a),
        !s.contains(v),
    ensures
        injective(a.insert(k, v)),
        disjoint_values(a.insert(k, v), b),
        disjoint_values(b, a.insert(k, v)),
        values_within(a.insert(k, v), s.insert(v)),
        values_within(b, s.insert(v)),
{
    let a2 = a.insert(k, v);
    assert forall|x: Seq<char>, y: Seq<char>|
        #![trigger a2[x], b[y]]
        a2.contains_key(x) && b.contains_key(y) implies a2[x] != b[y] by {
        assert(s.contains(b[y]));
        if x != k {
            assert(s.contains(a[x]));
            if disjoint_values(b, a) {
                assert(b[y] != a[x]);
            }
        }
    }
    assert forall|x: Seq<char>, y: Seq<char>|
        #![trigger b[x], a2[y]]
        b.contains_key(x) && a2.contains_key(y) implies b[x] != a2[y] by {
        assert(s.contains(b[x]));
        if y != k {
            assert(s.contains(a[y]));
            if disjoint_values(a, b) {
                assert(a[y] != b[x]);
            }
        }
    }
    assert forall|x: Seq<char>, y: Seq<char>|
        #![trigger a2[x], a2[y]]
        a2.contains_key(x) && a2.contains_key(y) && x != y implies a2[x] != a2[y] by {
        if x == k {
            assert(s.contains(a[y]));
        } else if y == k {
            assert(s.contains(a[x]));
        }
    }
}

/// What holds when a step that takes `needed` shortcuts stopped without one:
/// the set grew from `before` to `after` members, short of the `needed`
/// new ones, and when the search was exhausted it held at least two.
pub open spec fn stopped_within(e: ShortcutError, before: nat, after: nat, needed: nat) -> bool {
    &&& after < before + needed
    &&& e == ShortcutError::Exhausted ==> 2 <= after
}

/// Gives the tag key `key` a fresh shortcut; without one (see
/// `make_shortcut`) nothing changes and the reason is returned.
fn assign_tag_shortcut(
    key: String,
    sh: &mut ShortcutSet,
    tag_map: &mut StringMap,
    task_map: &StringMap,
) -> (r: Result<(), ShortcutError>)
    requires
        assignment_ok(*old(sh), *old(tag_map), *task_map),
    ensures
        assignment_ok(*final(sh), *final(tag_map), *task_map),
        match r {
            Ok(_) => {
                &&& final(tag_map)@.dom() == old(tag_map)@.dom().insert(key@)
                &&& final(sh)@.len() == old(sh)@.len() + 1
            },
            Err(e) => {
                &&& final(sh)@ == old(sh)@
                &&& final(tag_map)@ == old(tag_map)@
                &&& e == ShortcutError::Exhausted ==> holds_both_lengths(old(sh)@) && old(sh)@.len()
                    >= 2
            },
        },
{
    let ghost s0 = sh@;
    let (found, _tried) = make_shortcut(sh);
    match found {
        Ok(v) => {
            proof {
                old(sh).lemma_members();
                lemma_insert_fresh(tag_map@, task_map@, s0, key@, v@);
            }
            tag_map.insert(key, v);
            assert(tag_map@.dom() =~= old(tag_map)@.dom().insert(key@));
            Ok(())
        },
        Err(e) => Err(e),
    }
}

/// Gives the task key `key` a fresh shortcut; without one (see
/// `make_shortcut`) nothing changes and the reason is returned.
fn assign_task_shortcut(
    key: String,
    sh: &mut ShortcutSet,
    tag_map: &StringMap,
    task_map: &mut StringMap,
) -> (r: Result<(), ShortcutError>)
    requires
        assignment_ok(*old(sh), *tag_map, *old(task_map)),
    ensures
        assignment_ok(*final(sh), *tag_map, *final(task_map)),
        match r {
            Ok(_) => {
                &&& final(task_map)@.dom() == old(task_map)@.dom().insert(key@)
                &&& final(sh)@.len() == old(sh)@.len() + 1
            },
            Err(e) => {
                &&& final(sh)@ == old(sh)@
                &&& final(task_map)@ == old(task_map)@
                &&& e == ShortcutError::Exhausted ==> holds_both_lengths(old(sh)@) && old(sh)@.len()
                    >= 2
            },
        },
{
    let ghost s0 = sh@;
    let (found, _tried) = make_shortcut(sh);
    match found {
        Ok(v) => {
            proof {
                old(sh).lemma_members();
                lemma_insert_fresh(task_map@, tag_map@, s0, key@, v@);
            }
            task_map.insert(key, v);
            assert(task_map@.dom() =~= old(task_map)@.dom().insert(key@));
            Ok(())
        },
        Err(e) => Err(e),
    }
}

/// Shows the tags of a task, giving each shown tag a shortcut; without a
/// shortcut (see `make_shortcut`) it stops with the reason, having added
/// fewer new shortcuts than tags.
fn show_tags(
    tags: &Vec<String>,
    keywords: &Vec<String>,
    sh: &mut ShortcutSet,
    tag_map: &mut StringMap,
    task_map: &StringMap,
) -> (r: Result<Vec<String>, ShortcutError>)
    requires
        assignment_ok(*old(sh), *old(tag_map), *task_map),
    ensures
        match r {
            Ok(out) => {
                &&& assignment_ok(*final(sh), *final(tag_map), *task_map)
                &&& string_views(out@) == shown_tags(string_views(tags@), text_set(keywords@))
                &&& final(tag_map)@.dom() == old(tag_map)@.dom() + shown_tags(
                    string_views(tags@),
                    text_set(keywords@),
                ).to_set()
                &&& final(sh)@.len() == old(sh)@.len() + tags@.len()
            },
            Err(e) => stopped_within(e, old(sh)@.len(), final(sh)@.len(), tags@.len()),
        },
{
    let ghost kw = text_set(keywords@);
    let ghost want = shown_tags(string_views(tags@), kw);
    let mut out: Vec<String> = Vec::new();
    let mut j: usize = 0;
    assert(want.take(0).to_set() =~= Set::<Seq<char>>::empty());
    while j < tags.len()
        invariant
            kw == text_set(keywords@),
            want == shown_tags(string_views(tags@), kw),
            j <= tags@.len(),
            out@.len() == j,
            string_views(out@) == want.take(j as int),
            assignment_ok(*sh, *tag_map, *task_map),
            tag_map@.dom() == old(tag_map)@.dom() + want.take(j as int).to_set(),
            sh@.len() == old(sh)@.len() + j,
        decreases tags@.len() - j,
    {
        let g = &tags[j];
        let shown = if contains_text(keywords, g.as_str()) {
            g.clone()
        } else {
            concatenate("+", g.as_str())
        };
        assert(shown@ == want[j as int]);
        let ghost before = out@;
        match assign_tag_shortcut(shown.clone(), sh, tag_map, task_map) {
            Ok(()) => {},
            Err(e) => {
                return Err(e);
            },
        }
        out.push(shown);
        proof {
            assert(want.take(j + 1) =~= want.take(j as int).push(want[j as int]));
            want.take(j as int).lemma_push_to_set_commute(want[j as int]);
            assert(string_views(out@) =~= want.take(j + 1)) by {
                assert forall|x: int| 0 <= x < j + 1 implies #[trigger] string_views(out@)[x] == want.take(j + 1)[x] by {
                    if x < j {
                        assert(out@[x] == before[x]);
                        assert(string_views(before)[x] == want.take(j as int)[x]);
                    }
                }
            }
            assert(tag_map@.dom() =~= old(tag_map)@.dom() + want.take(j + 1).to_set());
        }
        j = j + 1;
    }
    assert(want.take(tags@.len() as int) =~= want);
    Ok(out)
}

/// Gives each project key of `p` a shortcut; without a shortcut (see
/// `make_shortcut`) it stops with the reason, having added fewer new
/// shortcuts than project keys.
fn add_project_keys(
    p: &String,
    sh: &mut ShortcutSet,
    tag_map: &mut StringMap,
    task_map: &StringMap,
) -> (r: Result<(), ShortcutError>)
    requires
        assignment_ok(*old(sh), *old(tag_map), *task_map),
    ensures
        match r {
            Ok(_) => {
                &&& assignment_ok(*final(sh), *final(tag_map), *task_map)
                &&& final(tag_map)@.dom() == old(tag_map)@.dom() + project_keys(p@).to_set()
                &&& final(sh)@.len() == old(sh)@.len() + project_keys(p@).len()
            },
            Err(e) => stopped_within(e, old(sh)@.len(), final(sh)@.len(), project_keys(p@).len()),
        },
{
    let keys = project_key_list(p.as_str());
    let ghost want = project_keys(p@);
    let mut k: usize = 0;
    assert(want.take(0).to_set() =~= Set::<Seq<char>>::empty());
    while k < keys.len()
        invariant
            want == project_keys(p@),
            string_views(keys@) == want,
            k <= keys@.len(),
            assignment_ok(*sh, *tag_map, *task_map),
            tag_map@.dom() == old(tag_map)@.dom() + want.take(k as int).to_set(),
            sh@.len() == old(sh)@.len() + k,
        decreases keys@.len() - k,
    {
        let key = keys[k].clone();
        assert(key@ == want[k as int]);
        match assign_tag_shortcut(key, sh, tag_map, task_map) {
            Ok(()) => {},
            Err(e) => {
                return Err(e);
            },
        }
        proof {
            assert(want.take(k + 1) =~= want.take(k as int).push(want[k as int]));
            want.take(k as int).lemma_push_to_set_commute(want[k as int]);
            assert(tag_map@.dom() =~= old(tag_map)@.dom() + want.take(k + 1).to_set());
        }
        k = k + 1;
    }
    assert(want.take(want.len() as int) =~= want);
    Ok(())
}

/// Shows one task and gives shortcuts to its tags, its project keys (when
/// the project's own text is not yet a key), its number and its uuid;
/// without a shortcut (see `make_shortcut`) it stops with the reason, having
/// added fewer new shortcuts than the task takes.
fn show_task(
    task: &Task,
    keywords: &Vec<String>,
    sh: &mut ShortcutSet,
    tag_map: &mut StringMap,
    task_map: &mut StringMap,
) -> (r: Result<Task, ShortcutError>)
    requires
        assignment_ok(*old(sh), *old(tag_map), *old(task_map)),
    ensures
        match r {
            Ok(t) => {
                &&& assignment_ok(*final(sh), *final(tag_map), *final(task_map))
                &&& t@ == shown_task(task@, text_set(keywords@))
                &&& final(tag_map)@.dom() == after_task(
                    old(tag_map)@.dom(),
                    task@,
                    text_set(keywords@),
                )
                &&& final(task_map)@.dom() == old(task_map)@.dom().insert(
                    decimal(task.id as nat),
                ).insert(task.uuid@)
                &&& final(sh)@.len() == old(sh)@.len() + calls_of_task(
                    old(tag_map)@.dom(),
                    task@,
                    text_set(keywords@),
                )
            },
            Err(e) => stopped_within(
                e,
                old(sh)@.len(),
                final(sh)@.len(),
                calls_of_task(old(tag_map)@.dom(), task@, text_set(keywords@)),
            ),
        },
{
    let ghost kw = text_set(keywords@);
    let tags = match &task.tags {
        Some(ts) => {
            match show_tags(ts, keywords, sh, tag_map, task_map) {
                Ok(out) => Some(out),
                Err(e) => {
                    return Err(e);
                },
            }
        },
        None => None,
    };
    assert(tag_map@.dom() =~= old(tag_map)@.dom() + tag_keys(task@, kw));
    match &task.project {
        Some(p) => {
            if !tag_map.contains_key(p.as_str()) {
                match add_project_keys(p, sh, tag_map, task_map) {
                    Ok(()) => {},
                    Err(e) => {
                        return Err(e);
                    },
                }
            }
        },
        None => {},
    }
    assert(tag_map@.dom() =~= after_task(old(tag_map)@.dom(), task@, kw));
    let id_key = decimal_string(task.id);
    match assign_task_shortcut(id_key, sh, tag_map, task_map) {
        Ok(()) => {},
        Err(e) => {
            return Err(e);
        },
    }
    match assign_task_shortcut(task.uuid.clone(), sh, tag_map, task_map) {
        Ok(()) => {},
        Err(e) => {
            return Err(e);
        },
    }
    let t = Task {
        id: task.id,
        uuid: task.uuid.clone(),
        description: task.description.clone(),
        tags,
        project: copy_opt(&task.project),
        start: copy_opt(&task.start),
    };
    assert(t@ == shown_task(task@, kw));
    Ok(t)
}

/// The map of tasks with their tags shown, the list of those tasks in the
/// map's order, and the shortcuts handed out for them.
pub struct TaskViewData {
    pub tasks: IndexMap<String, Task>,
    pub task_list: Vec<Task>,
    pub shortcuts: ShortcutSet,
    pub tag_map: StringMap,
    pub task_shortcut_map: StringMap,
}


/// Gives shortcuts for the filters: `@` followed by the filter, once for a
/// tag and once per dot-separated part otherwise, unless the filter is a key
/// already or a keyword; without a shortcut (see `make_shortcut`) it stops
/// with the reason, having added fewer new shortcuts than the filters take.
fn add_filter_keys(
    filters: &Vec<String>,
    keywords: &Vec<String>,
    tag_filters: &Vec<String>,
    sh: &mut ShortcutSet,
    tag_map: &mut StringMap,
    task_map: &StringMap,
) -> (r: Result<(), ShortcutError>)
    requires
        assignment_ok(*old(sh), *old(tag_map), *task_map),
    ensures
        r is Ok ==> {
            &&& assignment_ok(*final(sh), *final(tag_map), *task_map)
            &&& final(tag_map)@.dom() == keys_after_filters(
                old(tag_map)@.dom(),
                string_views(filters@),
                text_set(keywords@),
            )
            &&& final(sh)@.len() == old(sh)@.len() + calls_after_filters(
                old(tag_map)@.dom(),
                string_views(filters@),
                text_set(keywords@),
                text_set(tag_filters@),
            )
        },
        r matches Err(e) ==> stopped_within(
            e,
            old(sh)@.len(),
            final(sh)@.len(),
            calls_after_filters(
                old(tag_map)@.dom(),
                string_views(filters@),
                text_set(keywords@),
                text_set(tag_filters@),
            ),
        ),
{
    let ghost kw = text_set(keywords@);
    let ghost tl = text_set(tag_filters@);
    let ghost fv = string_views(filters@);
    let ghost dom0 = tag_map@.dom();
    let ghost len0 = sh@.len();
    let mut i: usize = 0;
    assert(fv.take(0) =~= Seq::<Seq<char>>::empty());
    while i < filters.len()
        invariant
            kw == text_set(keywords@),
            tl == text_set(tag_filters@),
            fv == string_views(filters@),
            dom0 == old(tag_map)@.dom(),
            len0 == old(sh)@.len(),
            i <= filters@.len(),
            assignment_ok(*sh, *tag_map, *task_map),
            tag_map@.dom() == keys_after_filters(dom0, fv.take(i as int), kw),
            sh@.len() == len0 + calls_after_filters(dom0, fv.take(i as int), kw, tl),
        decreases filters@.len() - i,
    {
        let f = &filters[i];
        proof {
            assert(fv.take(i + 1).drop_last() =~= fv.take(i as int));
            assert(fv.take(i + 1).last() == f@);
        }
        let ghost d1 = tag_map@.dom();
        let ghost l1 = sh@.len();
        if !tag_map.contains_key(f.as_str()) {
            if contains_text(keywords, f.as_str()) {
            } else if contains_text(tag_filters, f.as_str()) {
                proof {
                    assert(calls_of_filter(d1, f@, kw, tl) == 1);
                    lemma_filter_calls_grow(dom0, fv, kw, tl, i + 1);
                }
                let key = concatenate("@", f.as_str());
                match assign_tag_shortcut(key, sh, tag_map, task_map) {
                    Ok(()) => {},
                    Err(e) => {
                        return Err(e);
                    },
                }
            } else {
                let parts = split_by(f.as_str(), '.');
                proof {
                    lemma_split_len(f@, '.');
                    assert(calls_of_filter(d1, f@, kw, tl) == parts@.len());
                    lemma_filter_calls_grow(dom0, fv, kw, tl, i + 1);
                }
                let mut k: usize = 0;
                while k < parts.len()
                    invariant
                        k <= parts@.len(),
                        parts@.len() == split_on(f@, '.').len(),
                        assignment_ok(*sh, *tag_map, *task_map),
                        k == 0 ==> tag_map@.dom() == d1,
                        k > 0 ==> tag_map@.dom() == d1.insert("@"@ + f@),
                        sh@.len() == l1 + k,
                        l1 + parts@.len() <= old(sh)@.len() + calls_after_filters(
                            old(tag_map)@.dom(),
                            string_views(filters@),
                            text_set(keywords@),
                            text_set(tag_filters@),
                        ),
                    decreases parts@.len() - k,
                {
                    let key = concatenate("@", f.as_str());
                    match assign_tag_shortcut(key, sh, tag_map, task_map) {
                        Ok(()) => {},
                        Err(e) => {
                            return Err(e);
                        },
                    }
                    proof {
                        if k > 0 {
                            assert(tag_map@.dom() =~= d1.insert("@"@ + f@));
                        }
                    }
                    k = k + 1;
                }
            }
        }
        i = i + 1;
    }
    assert(fv.take(filters@.len() as int) =~= fv);
    Ok(())
}

proof fn lemma_filter_calls_grow(
    keys: Set<Seq<char>>,
    fs: Seq<Seq<char>>,
    kw: Set<Seq<char>>,
    tl: Set<Seq<char>>,
    i: int,
)
    requires
        0 <= i <= fs.len(),
    ensures
        calls_after_filters(keys, fs.take(i), kw, tl) <= calls_after_filters(keys, fs, kw, tl),
    decreases fs.len() - i,
{
    if i < fs.len() {
        lemma_filter_calls_grow(keys, fs, kw, tl, i + 1);
        assert(fs.take(i + 1).drop_last() =~= fs.take(i));
    } else {
        assert(fs.take(i) =~= fs);
    }
}

proof fn lemma_task_calls_grow(ts: Seq<TaskView>, kw: Set<Seq<char>>, i: int)
    requires
        0 <= i <= ts.len(),
    ensures
        calls_after_tasks(ts.take(i), kw) <= calls_after_tasks(ts, kw),
    decreases ts.len() - i,
{
    if i < ts.len() {
        lemma_task_calls_grow(ts, kw, i + 1);
        assert(ts.take(i + 1).drop_last() =~= ts.take(i));
    } else {
        assert(ts.take(i) =~= ts);
    }
}

/// The number of shortcuts that the view of the entries `entries` and the
/// filters `fs` takes.
pub open spec fn shortcuts_needed(
    entries: Seq<(Seq<char>, TaskView)>,
    fs: Seq<Seq<char>>,
    kw: Set<Seq<char>>,
    tl: Set<Seq<char>>,
) -> nat {
    let ts = entry_tasks(entries);
    calls_after_tasks(ts, kw) + calls_after_filters(keys_after_tasks(ts, kw), fs, kw, tl)
}

/// What the view data holds for the task entries `entries`, the filters
/// `fs`, the keyword tags `kw` and the filters that are tags `tl`.
pub open spec fn is_view_data(
    d: TaskViewData,
    entries: Seq<(Seq<char>, TaskView)>,
    fs: Seq<Seq<char>>,
    kw: Set<Seq<char>>,
    tl: Set<Seq<char>>,
) -> bool {
    let ts = entry_tasks(entries);
    // each task keeps its key and place and has its tags shown
    &&& task_entries(d.tasks).len() == entries.len()
    &&& forall|i: int|
        0 <= i < entries.len() ==> #[trigger] task_entries(d.tasks)[i] == (
            entries[i].0,
            shown_task(entries[i].1, kw),
        )
    // the list holds the same tasks, in the same order
    &&& d.task_list@.len() == entries.len()
    &&& forall|i: int|
        0 <= i < entries.len() ==> #[trigger] d.task_list@[i]@ == shown_task(entries[i].1, kw)
    // every shortcut of the two maps comes from the set, and none is given twice
    &&& assignment_ok(d.shortcuts, d.tag_map, d.task_shortcut_map)
    // the keys of the two maps
    &&& d.tag_map@.dom() == keys_after_filters(keys_after_tasks(ts, kw), fs, kw)
    &&& d.task_shortcut_map@.dom() == task_keys(ts)
    // one shortcut was made for each key handed out, in order
    &&& d.shortcuts@.len() == calls_after_tasks(ts, kw) + calls_after_filters(
        keys_after_tasks(ts, kw),
        fs,
        kw,
        tl,
    )
}

/// Shows every task of `tasks` and hands out shortcuts for the tags, project
/// levels, numbers and uuids of the tasks and for the filters `filters`.
///
/// `keywords` lists the tags that the task store treats as keywords (they
/// are shown without a `+` and bring no key as filters), and `tag_filters`
/// the filters that the task store treats as tags. The result is an error
/// when a shortcut could not be had (see `make_shortcut`): never for a view
/// that needs no shortcut, and `Exhausted` never for one that needs at most
/// two.
pub fn get_tasks_view_data(
    tasks: IndexMap<String, Task>,
    filters: &Vec<String>,
    keywords: &Vec<String>,
    tag_filters: &Vec<String>,
) -> (r: Result<TaskViewData, ShortcutError>)
    ensures
        match r {
            Ok(d) => is_view_data(
                d,
                task_entries(tasks),
                string_views(filters@),
                text_set(keywords@),
                text_set(tag_filters@),
            ),
            Err(e) => {
                let needed = shortcuts_needed(
                    task_entries(tasks),
                    string_views(filters@),
                    text_set(keywords@),
                    text_set(tag_filters@),
                );
                &&& needed >= 1
                &&& e == ShortcutError::Exhausted ==> needed >= 3
            },
        },
{
    let ghost kw = text_set(keywords@);
    let ghost orig = task_entries(tasks);
    let ghost ts = entry_tasks(orig);
    let mut tasks = tasks;
    let mut sh = ShortcutSet::new();
    let mut tag_map = StringMap::new();
    let mut task_map = StringMap::new();
    let mut task_list: Vec<Task> = Vec::new();
    let n = task_count(&tasks);
    let mut i: usize = 0;
    assert(ts.take(0) =~= Seq::<TaskView>::empty());
    assert(tag_map@.dom() =~= Set::<Seq<char>>::empty());
    assert(task_map@.dom() =~= Set::<Seq<char>>::empty());
    #[verifier::loop_isolation(false)]
    while i < n
        invariant
            kw == text_set(keywords@),
            ts == entry_tasks(orig),
            n == orig.len(),
            i <= n,
            task_entries(tasks).len() == n,
            forall|j: int|
                0 <= j < i ==> #[trigger] task_entries(tasks)[j] == (
                    orig[j].0,
                    shown_task(orig[j].1, kw),
                ),
            forall|j: int| i <= j < n ==> #[trigger] task_entries(tasks)[j] == orig[j],
            task_list@.len() == i,
            forall|j: int| 0 <= j < i ==> #[trigger] task_list@[j]@ == shown_task(orig[j].1, kw),
            assignment_ok(sh, tag_map, task_map),
            tag_map@.dom() == keys_after_tasks(ts.take(i as int), kw),
            task_map@.dom() == task_keys(ts.take(i as int)),
            sh@.len() == calls_after_tasks(ts.take(i as int), kw),
            calls_after_tasks(ts, kw) <= shortcuts_needed(
                orig,
                string_views(filters@),
                kw,
                text_set(tag_filters@),
            ),
        decreases n - i,
    {
        proof {
            assert(ts.take(i + 1).drop_last() =~= ts.take(i as int));
            assert(ts.take(i + 1).last() == orig[i as int].1);
            lemma_task_calls_grow(ts, kw, i + 1);
        }
        let ghost dom_i = tag_map@.dom();
        let ghost len_i = sh@.len();
        let shown = match task_at(&tasks, i) {
            Some(e) => {
                match show_task(e.1, keywords, &mut sh, &mut tag_map, &mut task_map) {
                    Ok(t) => t,
                    Err(err) => {
                        proof {
                            assert(e.1@ == orig[i as int].1);
                            assert(calls_after_tasks(ts.take(i + 1), kw) == len_i + calls_of_task(
                                dom_i,
                                e.1@,
                                kw,
                            ));
                        }
                        return Err(err);
                    },
                }
            },
            None => {
                proof {
                    assert(false);
                }
                return Err(ShortcutError::Exhausted);
            },
        };
        let ghost before = task_list@;
        task_list.push(shown.duplicate());
        let ghost e0 = task_entries(tasks);
        replace_task_at(&mut tasks, i, shown);
        proof {
            assert forall|j: int| 0 <= j < i + 1 implies #[trigger] task_list@[j]@ == shown_task(
                orig[j].1,
                kw,
            ) by {
                if j < i {
                    assert(task_list@[j] == before[j]);
                }
            }
            assert forall|j: int|
                0 <= j < i + 1 implies #[trigger] task_entries(tasks)[j] == (
                    orig[j].0,
                    shown_task(orig[j].1, kw),
                ) by {
                if j < i {
                    assert(task_entries(tasks)[j] == e0[j]);
                }
            }
            assert forall|j: int| i + 1 <= j < n implies #[trigger] task_entries(tasks)[j]
                == orig[j] by {
                assert(task_entries(tasks)[j] == e0[j]);
            }
        }
        i = i + 1;
    }
    assert(ts.take(n as int) =~= ts);
    match add_filter_keys(filters, keywords, tag_filters, &mut sh, &mut tag_map, &task_map) {
        Ok(()) => {},
        Err(e) => {
            return Err(e);
        },
    }
    Ok(
        TaskViewData {
            tasks,
            task_list,
            shortcuts: sh,
            tag_map,
            task_shortcut_map: task_map,
        },
    )
}


proof fn lemma_filters_keep_keys(keys: Set<Seq<char>>, fs: Seq<Seq<char>>, kw: Set<Seq<char>>)
    ensures
        keys.subset_of(keys_after_filters(keys, fs, kw)),
    decreases fs.len(),
{
    if fs.len() > 0 {
        lemma_filters_keep_keys(keys, fs.drop_last(), kw);
    }
}

proof fn lemma_tasks_keep_tag_keys(ts: Seq<TaskView>, kw: Set<Seq<char>>, i: int)
    requires
        0 <= i < ts.len(),
    ensures
        tag_keys(ts[i], kw).subset_of(keys_after_tasks(ts, kw)),
    decreases ts.len(),
{
    let prev = keys_after_tasks(ts.drop_last(), kw);
    assert((prev + tag_keys(ts.last(), kw)).subset_of(keys_after_tasks(ts, kw)));
    if i < ts.len() - 1 {
        lemma_tasks_keep_tag_keys(ts.drop_last(), kw, i);
        assert(ts.drop_last()[i] == ts[i]);
    }
}

proof fn lemma_task_keys_hold(ts: Seq<TaskView>, i: int)
    requires
        0 <= i < ts.len(),
    ensures
        task_keys(ts).contains(ts[i].uuid),
        task_keys(ts).contains(decimal(ts[i].id as nat)),
    decreases ts.len(),
{
    if i < ts.len() - 1 {
        lemma_task_keys_hold(ts.drop_last(), i);
        assert(ts.drop_last()[i] == ts[i]);
    }
}

/// Every tag shown on a task of the list has a shortcut in the tag map.
pub proof fn lemma_shown_tags_have_shortcuts(
    d: TaskViewData,
    entries: Seq<(Seq<char>, TaskView)>,
    fs: Seq<Seq<char>>,
    kw: Set<Seq<char>>,
    tl: Set<Seq<char>>,
)
    requires
        is_view_data(d, entries, fs, kw, tl),
    ensures
        forall|i: int, j: int|
            0 <= i < d.task_list@.len() && d.task_list@[i]@.tags is Some && 0 <= j
                < d.task_list@[i]@.tags->0.len() ==> d.tag_map@.contains_key(
                #[trigger] d.task_list@[i]@.tags->0[j],
            ),
{
    let ts = entry_tasks(entries);
    assert forall|i: int, j: int|
        0 <= i < d.task_list@.len() && d.task_list@[i]@.tags is Some && 0 <= j
            < d.task_list@[i]@.tags->0.len() implies d.tag_map@.contains_key(
        #[trigger] d.task_list@[i]@.tags->0[j],
    ) by {
        let shown = d.task_list@[i]@;
        assert(shown == shown_task(entries[i].1, kw));
        assert(ts[i] == entries[i].1);
        let g = shown.tags->0[j];
        assert(tag_keys(ts[i], kw).contains(g)) by {
            assert(shown_tags(ts[i].tags->0, kw)[j] == g);
        }
        lemma_tasks_keep_tag_keys(ts, kw, i);
        lemma_filters_keep_keys(keys_after_tasks(ts, kw), fs, kw);
    }
}

/// Every task of the list has a shortcut under its uuid and under its number.
pub proof fn lemma_tasks_have_shortcuts(
    d: TaskViewData,
    entries: Seq<(Seq<char>, TaskView)>,
    fs: Seq<Seq<char>>,
    kw: Set<Seq<char>>,
    tl: Set<Seq<char>>,
)
    requires
        is_view_data(d, entries, fs, kw, tl),
    ensures
        forall|i: int|
            0 <= i < d.task_list@.len() ==> d.task_shortcut_map@.contains_key(
                (#[trigger] d.task_list@[i])@.uuid,
            ) && d.task_shortcut_map@.contains_key(decimal(d.task_list@[i]@.id as nat)),
{
    let ts = entry_tasks(entries);
    assert forall|i: int| 0 <= i < d.task_list@.len() implies d.task_shortcut_map@.contains_key(
        (#[trigger] d.task_list@[i])@.uuid,
    ) && d.task_shortcut_map@.contains_key(decimal(d.task_list@[i]@.id as nat)) by {
        assert(d.task_list@[i]@ == shown_task(entries[i].1, kw));
        assert(ts[i] == entries[i].1);
        lemma_task_keys_hold(ts, i);
    }
}

/// Every shortcut of the view is two or three lowercase ASCII letters or
/// digits, and no two keys, in either map, share one.
pub proof fn lemma_view_shortcuts_distinct(
    d: TaskViewData,
    entries: Seq<(Seq<char>, TaskView)>,
    fs: Seq<Seq<char>>,
    kw: Set<Seq<char>>,
    tl: Set<Seq<char>>,
)
    requires
        is_view_data(d, entries, fs, kw, tl),
    ensures
        forall|k: Seq<char>| #[trigger] d.tag_map@.contains_key(k) ==> is_shortcut(d.tag_map@[k]),
        forall|k: Seq<char>|
            #[trigger] d.task_shortcut_map@.contains_key(k) ==> is_shortcut(d.task_shortcut_map@[k]),
        forall|a: Seq<char>, b: Seq<char>|
            d.tag_map@.contains_key(a) && d.tag_map@.contains_key(b) && a != b ==> #[trigger] d.tag_map@[a]
                != #[trigger] d.tag_map@[b],
        forall|a: Seq<char>, b: Seq<char>|
            d.task_shortcut_map@.contains_key(a) && d.task_shortcut_map@.contains_key(b) && a != b
                ==> #[trigger] d.task_shortcut_map@[a] != #[trigger] d.task_shortcut_map@[b],
        forall|a: Seq<char>, b: Seq<char>|
            d.tag_map@.contains_key(a) && d.task_shortcut_map@.contains_key(b) ==> #[trigger] d.tag_map@[a]
                != #[trigger] d.task_shortcut_map@[b],
{
    d.shortcuts.lemma_members();
}

/// The list shows each task as it came, but for its tags: a task keeps
/// having tags or not, as many as it had, and at every position the tag is
/// shown as it is when it is a keyword and behind a `+` when it is not; each
/// tag shown behind a `+` has a shortcut under that marked text.
pub proof fn lemma_listed_tags_marked(
    d: TaskViewData,
    entries: Seq<(Seq<char>, TaskView)>,
    fs: Seq<Seq<char>>,
    kw: Set<Seq<char>>,
    tl: Set<Seq<char>>,
)
    requires
        is_view_data(d, entries, fs, kw, tl),
    ensures
        d.task_list@.len() == entries.len(),
        forall|i: int|
            0 <= i < entries.len() ==> (#[trigger] d.task_list@[i])@ == (TaskView {
                tags: d.task_list@[i]@.tags,
                ..entries[i].1
            }),
        forall|i: int|
            0 <= i < entries.len() ==> ((#[trigger] d.task_list@[i])@.tags is Some <==> entries[i].1.tags is Some),
        forall|i: int|
            0 <= i < entries.len() && entries[i].1.tags is Some ==> (#[trigger] d.task_list@[i])@.tags->0.len()
                == entries[i].1.tags->0.len(),
        forall|i: int, j: int|
            0 <= i < entries.len() && entries[i].1.tags is Some && 0 <= j < entries[i].1.tags->0.len()
                ==> d.task_list@[i]@.tags->0[j] == if kw.contains(#[trigger] entries[i].1.tags->0[j]) {
                entries[i].1.tags->0[j]
            } else {
                "+"@ + entries[i].1.tags->0[j]
            },
        forall|i: int, j: int|
            0 <= i < entries.len() && entries[i].1.tags is Some && 0 <= j < entries[i].1.tags->0.len()
                && !kw.contains(#[trigger] entries[i].1.tags->0[j]) ==> d.tag_map@.contains_key(
                "+"@ + entries[i].1.tags->0[j],
            ),
{
    lemma_shown_tags_have_shortcuts(d, entries, fs, kw, tl);
    assert forall|i: int|
        0 <= i < entries.len() implies (#[trigger] d.task_list@[i])@ == (TaskView {
            tags: d.task_list@[i]@.tags,
            ..entries[i].1
        }) by {
        assert(d.task_list@[i]@ == shown_task(entries[i].1, kw));
    }
    assert forall|i: int, j: int|
        0 <= i < entries.len() && entries[i].1.tags is Some && 0 <= j < entries[i].1.tags->0.len()
            implies d.task_list@[i]@.tags->0[j] == if kw.contains(#[trigger] entries[i].1.tags->0[j]) {
            entries[i].1.tags->0[j]
        } else {
            "+"@ + entries[i].1.tags->0[j]
        } && (!kw.contains(entries[i].1.tags->0[j]) ==> d.tag_map@.contains_key(
            "+"@ + entries[i].1.tags->0[j],
        )) by {
        assert(d.task_list@[i]@ == shown_task(entries[i].1, kw));
        assert(d.task_list@[i]@.tags->0.len() == entries[i].1.tags->0.len());
        assert(d.task_list@[i]@.tags->0[j] == shown_tag(entries[i].1.tags->0[j], kw));
    }
    assert forall|i: int|
        0 <= i < entries.len() && entries[i].1.tags is Some implies (#[trigger] d.task_list@[i])@.tags->0.len()
            == entries[i].1.tags->0.len() by {
        assert(d.task_list@[i]@ == shown_task(entries[i].1, kw));
    }
    assert forall|i: int|
        0 <= i < entries.len() implies ((#[trigger] d.task_list@[i])@.tags is Some <==> entries[i].1.tags is Some) by {
        assert(d.task_list@[i]@ == shown_task(entries[i].1, kw));
    }
}

proof fn lemma_tasks_keep_project_keys(ts: Seq<TaskView>, kw: Set<Seq<char>>, i: int)
    requires
        0 <= i < ts.len(),
        ts[i].project is Some,
    ensures
        keys_after_tasks(ts, kw).contains(ts[i].project->0) || project_keys(
            ts[i].project->0,
        ).to_set().subset_of(keys_after_tasks(ts, kw)),
    decreases ts.len(),
{
    let prev = keys_after_tasks(ts.drop_last(), kw);
    let all = keys_after_tasks(ts, kw);
    assert(prev.subset_of(all));
    if i < ts.len() - 1 {
        lemma_tasks_keep_project_keys(ts.drop_last(), kw, i);
        assert(ts.drop_last()[i] == ts[i]);
    } else {
        let with_tags = prev + tag_keys(ts.last(), kw);
        assert(with_tags.subset_of(all));
    }
}

proof fn lemma_filters_leave_keys(keys: Set<Seq<char>>, fs: Seq<Seq<char>>, kw: Set<Seq<char>>, i: int)
    requires
        0 <= i < fs.len(),
        !kw.contains(fs[i]),
    ensures
        keys_after_filters(keys, fs, kw).contains(fs[i]) || keys_after_filters(keys, fs, kw).contains(
            "@"@ + fs[i],
        ),
    decreases fs.len(),
{
    let prev = keys_after_filters(keys, fs.drop_last(), kw);
    let all = keys_after_filters(keys, fs, kw);
    assert(prev.subset_of(all));
    if i < fs.len() - 1 {
        lemma_filters_leave_keys(keys, fs.drop_last(), kw, i);
        assert(fs.drop_last()[i] == fs[i]);
    }
}

/// Every project of a listed task has its levels among the tag keys: the
/// keys hold the key of every level of the project, the last one being
/// `project:` followed by the project, unless the project's own text was
/// already a key. Every filter that is not a keyword has a key: the filter
/// behind an `@`, or the filter itself when it was already a key.
pub proof fn lemma_projects_and_filters_have_keys(
    d: TaskViewData,
    entries: Seq<(Seq<char>, TaskView)>,
    fs: Seq<Seq<char>>,
    kw: Set<Seq<char>>,
    tl: Set<Seq<char>>,
)
    requires
        is_view_data(d, entries, fs, kw, tl),
    ensures
        forall|i: int|
            0 <= i < entries.len() && (#[trigger] entries[i]).1.project is Some
                && !d.tag_map@.contains_key(entries[i].1.project->0) ==> {
                &&& d.tag_map@.contains_key("project:"@ + entries[i].1.project->0)
                &&& forall|k: int|
                    0 <= k < project_keys(entries[i].1.project->0).len() ==> d.tag_map@.contains_key(
                        #[trigger] project_keys(entries[i].1.project->0)[k],
                    )
            },
        forall|j: int|
            0 <= j < fs.len() && !kw.contains(#[trigger] fs[j]) ==> d.tag_map@.contains_key(fs[j])
                || d.tag_map@.contains_key("@"@ + fs[j]),
{
    let ts = entry_tasks(entries);
    lemma_filters_keep_keys(keys_after_tasks(ts, kw), fs, kw);
    assert forall|i: int|
        0 <= i < entries.len() && (#[trigger] entries[i]).1.project is Some
            && !d.tag_map@.contains_key(entries[i].1.project->0) implies {
            &&& d.tag_map@.contains_key("project:"@ + entries[i].1.project->0)
            &&& forall|k: int|
                0 <= k < project_keys(entries[i].1.project->0).len() ==> d.tag_map@.contains_key(
                    #[trigger] project_keys(entries[i].1.project->0)[k],
                )
        } by {
        let p = entries[i].1.project->0;
        assert(ts[i] == entries[i].1);
        lemma_tasks_keep_project_keys(ts, kw, i);
        lemma_project_keys_end_with_project(p);
        let keys = project_keys(p);
        assert(keys.to_set().contains(keys[keys.len() - 1]));
        assert forall|k: int| 0 <= k < keys.len() implies d.tag_map@.contains_key(#[trigger] keys[k]) by {
            assert(keys.to_set().contains(keys[k]));
        }
    }
    assert forall|j: int|
        0 <= j < fs.len() && !kw.contains(#[trigger] fs[j]) implies d.tag_map@.contains_key(fs[j])
            || d.tag_map@.contains_key("@"@ + fs[j]) by {
        lemma_filters_leave_keys(keys_after_tasks(ts, kw), fs, kw, j);
    }
}

proof fn lemma_task_keys_come_from(ts: Seq<TaskView>, kw: Set<Seq<char>>, k: Seq<char>)
    requires
        keys_after_tasks(ts, kw).contains(k),
    ensures
        exists|i: int|
            0 <= i < ts.len() && (tag_keys(#[trigger] ts[i], kw).contains(k) || (ts[i].project is Some
                && project_keys(ts[i].project->0).to_set().contains(k))),
    decreases ts.len(),
{
    let prev = keys_after_tasks(ts.drop_last(), kw);
    let i = ts.len() - 1;
    if prev.contains(k) {
        lemma_task_keys_come_from(ts.drop_last(), kw, k);
        let j = choose|j: int|
            0 <= j < ts.drop_last().len() && (tag_keys(#[trigger] ts.drop_last()[j], kw).contains(k) || (
            ts.drop_last()[j].project is Some && project_keys(ts.drop_last()[j].project->0).to_set().contains(k)));
        assert(ts.drop_last()[j] == ts[j]);
    } else {
        assert(tag_keys(ts[i], kw).contains(k) || (ts[i].project is Some && project_keys(
            ts[i].project->0,
        ).to_set().contains(k)));
    }
}

proof fn lemma_filter_keys_come_from(
    keys: Set<Seq<char>>,
    fs: Seq<Seq<char>>,
    kw: Set<Seq<char>>,
    k: Seq<char>,
)
    requires
        keys_after_filters(keys, fs, kw).contains(k),
    ensures
        keys.contains(k) || exists|j: int|
            0 <= j < fs.len() && k == "@"@ + #[trigger] fs[j] && !kw.contains(fs[j]),
    decreases fs.len(),
{
    if fs.len() > 0 {
        let prev = keys_after_filters(keys, fs.drop_last(), kw);
        if prev.contains(k) {
            lemma_filter_keys_come_from(keys, fs.drop_last(), kw, k);
            if !keys.contains(k) {
                let j = choose|j: int|
                    0 <= j < fs.drop_last().len() && k == "@"@ + #[trigger] fs.drop_last()[j]
                        && !kw.contains(fs.drop_last()[j]);
                assert(fs.drop_last()[j] == fs[j]);
            }
        } else {
            assert(k == "@"@ + fs[fs.len() - 1] && !kw.contains(fs[fs.len() - 1]));
        }
    }
}

/// The tag map holds no other keys than these: a tag of a listed task as it
/// is shown (a keyword as it is, any other tag behind a `+`), a key of a
/// level of a listed task's project, and a filter that is not a keyword
/// behind an `@`.
pub proof fn lemma_tag_keys_accounted(
    d: TaskViewData,
    entries: Seq<(Seq<char>, TaskView)>,
    fs: Seq<Seq<char>>,
    kw: Set<Seq<char>>,
    tl: Set<Seq<char>>,
    k: Seq<char>,
)
    requires
        is_view_data(d, entries, fs, kw, tl),
        d.tag_map@.contains_key(k),
    ensures
        (exists|i: int, j: int|
            0 <= i < entries.len() && entries[i].1.tags is Some && 0 <= j < entries[i].1.tags->0.len()
                && ((k == #[trigger] entries[i].1.tags->0[j] && kw.contains(k)) || (k == "+"@
                + entries[i].1.tags->0[j] && !kw.contains(entries[i].1.tags->0[j]))))
            || (exists|i: int, m: int|
            0 <= i < entries.len() && entries[i].1.project is Some && 0 <= m < project_keys(
                entries[i].1.project->0,
            ).len() && k == #[trigger] project_keys(entries[i].1.project->0)[m])
            || (exists|j: int| 0 <= j < fs.len() && k == "@"@ + #[trigger] fs[j] && !kw.contains(fs[j])),
{
    let ts = entry_tasks(entries);
    let tk = keys_after_tasks(ts, kw);
    lemma_filter_keys_come_from(tk, fs, kw, k);
    if tk.contains(k) {
        lemma_task_keys_come_from(ts, kw, k);
        let i = choose|i: int|
            0 <= i < ts.len() && (tag_keys(#[trigger] ts[i], kw).contains(k) || (ts[i].project is Some
                && project_keys(ts[i].project->0).to_set().contains(k)));
        assert(ts[i] == entries[i].1);
        if tag_keys(ts[i], kw).contains(k) {
            let shown = shown_tags(ts[i].tags->0, kw);
            let j = choose|j: int| 0 <= j < shown.len() && shown[j] == k;
            assert(shown[j] == shown_tag(entries[i].1.tags->0[j], kw));
        } else {
            let keys = project_keys(ts[i].project->0);
            let m = choose|m: int| 0 <= m < keys.len() && keys[m] == k;
            assert(k == project_keys(entries[i].1.project->0)[m]);
        }
    }
}

proof fn lemma_task_keys_are_tasks(ts: Seq<TaskView>, k: Seq<char>)
    requires
        task_keys(ts).contains(k),
    ensures
        exists|i: int| 0 <= i < ts.len() && (k == (#[trigger] ts[i]).uuid || k == decimal(ts[i].id as nat)),
    decreases ts.len(),
{
    if task_keys(ts.drop_last()).contains(k) {
        lemma_task_keys_are_tasks(ts.drop_last(), k);
        let i = choose|i: int|
            0 <= i < ts.drop_last().len() && (k == (#[trigger] ts.drop_last()[i]).uuid || k == decimal(
                ts.drop_last()[i].id as nat,
            ));
        assert(ts.drop_last()[i] == ts[i]);
    } else {
        assert(ts[ts.len() - 1] == ts.last());
    }
}

/// The task shortcut map holds no other keys than the uuids and the decimal
/// numbers of the listed tasks.
pub proof fn lemma_task_keys_accounted(
    d: TaskViewData,
    entries: Seq<(Seq<char>, TaskView)>,
    fs: Seq<Seq<char>>,
    kw: Set<Seq<char>>,
    tl: Set<Seq<char>>,
    k: Seq<char>,
)
    requires
        is_view_data(d, entries, fs, kw, tl),
        d.task_shortcut_map@.contains_key(k),
    ensures
        exists|i: int|
            0 <= i < entries.len() && (k == (#[trigger] entries[i]).1.uuid || k == decimal(
                entries[i].1.id as nat,
            )),
{
    let ts = entry_tasks(entries);
    lemma_task_keys_are_tasks(ts, k);
    let i = choose|i: int| 0 <= i < ts.len() && (k == (#[trigger] ts[i]).uuid || k == decimal(ts[i].id as nat));
    assert(ts[i] == entries[i].1);
}

} // verus!
