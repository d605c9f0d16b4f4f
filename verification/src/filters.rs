//! Filters of the task list: a project filter stands for each level of its
//! project, from the outermost to the project itself.
use vstd::prelude::*;
use vstd::string::*;
use crate::text::{
    split_on, join_with, string_views, split_by, concatenate, starts_with, lemma_split_at_least_two,
    lemma_split_len, lemma_join_split, count_char, lemma_split_without_sep, lemma_split_append_plain,
};

verus! {

/// Whether `s` begins with `prefix`.
pub open spec fn has_prefix(s: Seq<char>, prefix: Seq<char>) -> bool {
    prefix.len() <= s.len() && s.subrange(0, prefix.len() as int) == prefix
}

/// The keys of a project: `project:` followed by its first dot-separated
/// part, then by its first two parts joined with a dot, and so on to the
/// whole project.
pub open spec fn project_keys(p: Seq<char>) -> Seq<Seq<char>> {
    let parts = split_on(p, '.');
    Seq::new(parts.len(), |k: int| "project:"@ + join_with(parts.take(k + 1), "."@))
}

/// The filters that one filter stands for: a filter that begins with
/// `project:` stands for the project keys of the text between its first and
/// its second `:` (or its end); any other filter stands for itself.
pub open spec fn expand_filter(f: Seq<char>) -> Seq<Seq<char>> {
    if has_prefix(f, "project:"@) {
        project_keys(split_on(f, ':')[1])
    } else {
        seq![f]
    }
}

/// The filters that a list of filters stands for, in order.
pub open spec fn expand_filter_list(fs: Seq<Seq<char>>) -> Seq<Seq<char>>
    decreases fs.len(),
{
    if fs.len() == 0 {
        Seq::<Seq<char>>::empty()
    } else {
        expand_filter_list(fs.drop_last()) + expand_filter(fs.last())
    }
}

/// The project keys of `p`, in order.
pub fn project_key_list(p: &str) -> (keys: Vec<String>)
    ensures
        string_views(keys@) == project_keys(p@),
{
    let parts = split_by(p, '.');
    let ghost pv = string_views(parts@);
    let ghost want = project_keys(p@);
    let mut keys: Vec<String> = Vec::new();
    let mut total = String::new();
    let mut k: usize = 0;
    while k < parts.len()
        invariant
            pv == string_views(parts@),
            pv == split_on(p@, '.'),
            want == project_keys(p@),
            want.len() == pv.len(),
            k <= parts@.len(),
            k > 0 ==> total@ == join_with(pv.take(k as int), "."@),
            k == 0 ==> total@ == Seq::<char>::empty(),
            keys@.len() == k,
            string_views(keys@) == want.take(k as int),
        decreases parts@.len() - k,
    {
        if k > 0 {
            total.append(".");
        }
        total.append(parts[k].as_str());
        proof {
            if k > 0 {
                assert(pv.take(k + 1).drop_last() =~= pv.take(k as int));
                assert(total@ =~= join_with(pv.take(k + 1), "."@));
            } else {
                assert(pv.take(1)[0] == parts@[0]@);
                assert(total@ =~= join_with(pv.take(1), "."@));
            }
        }
        let key = concatenate("project:", total.as_str());
        assert(key@ == want[k as int]);
        let ghost before = keys@;
        keys.push(key);
        assert(string_views(keys@) =~= want.take(k + 1)) by {
            assert forall|x: int| 0 <= x < k + 1 implies #[trigger] string_views(keys@)[x] == want.take(k + 1)[x] by {
                if x < k {
                    assert(keys@[x] == before[x]);
                    assert(string_views(before)[x] == want.take(k as int)[x]);
                }
            }
        }
        k = k + 1;
    }
    assert(want.take(want.len() as int) =~= want);
    keys
}

/// The filters that one filter stands for (see `expand_filter`).
pub fn expand_one_filter(f: &str) -> (out: Vec<String>)
    ensures
        string_views(out@) == expand_filter(f@),
{
    let prefix = "project:";
    if starts_with(f, prefix) {
        proof {
            reveal_strlit("project:");
            assert(f@.subrange(0, 8)[7] == ':');
            lemma_split_at_least_two(f@, ':', 7);
        }
        let pieces = split_by(f, ':');
        assert(pieces@[1]@ == split_on(f@, ':')[1]);
        project_key_list(pieces[1].as_str())
    } else {
        let mut out: Vec<String> = Vec::new();
        out.push(String::from_str(f));
        assert(string_views(out@) =~= seq![f@]);
        out
    }
}

/// The filters that `current` stands for, in order: each project filter
/// replaced by the keys of its project levels, every other filter kept.
pub fn expand_filters(current: &Vec<String>) -> (out: Vec<String>)
    ensures
        string_views(out@) == expand_filter_list(string_views(current@)),
{
    let ghost cv = string_views(current@);
    let mut out: Vec<String> = Vec::new();
    let mut i: usize = 0;
    assert(cv.take(0) =~= Seq::<Seq<char>>::empty());
    while i < current.len()
        invariant
            cv == string_views(current@),
            i <= current@.len(),
            string_views(out@) == expand_filter_list(cv.take(i as int)),
        decreases current@.len() - i,
    {
        let more = expand_one_filter(current[i].as_str());
        let ghost before = string_views(out@);
        let mut j: usize = 0;
        while j < more.len()
            invariant
                j <= more@.len(),
                string_views(out@) == before + string_views(more@).take(j as int),
            decreases more@.len() - j,
        {
            let ghost o = out@;
            out.push(more[j].clone());
            assert(string_views(out@) =~= before + string_views(more@).take(j + 1)) by {
                assert(string_views(out@) =~= string_views(o).push(more@[j as int]@));
                assert(string_views(more@).take(j + 1) =~= string_views(more@).take(j as int).push(
                    more@[j as int]@,
                ));
            }
            j = j + 1;
        }
        proof {
            assert(string_views(more@).take(more@.len() as int) =~= string_views(more@));
            assert(cv.take(i + 1).drop_last() =~= cv.take(i as int));
            assert(cv.take(i + 1).last() == current@[i as int]@);
        }
        i = i + 1;
    }
    assert(cv.take(current@.len() as int) =~= cv);
    out
}

/// A project has one key per dot-separated level, and its deepest key is
/// `project:` followed by the whole project.
pub proof fn lemma_project_keys_end_with_project(p: Seq<char>)
    ensures
        project_keys(p).len() == count_char(p, '.') + 1,
        project_keys(p).last() == "project:"@ + p,
{
    let parts = split_on(p, '.');
    lemma_split_len(p, '.');
    lemma_join_split(p, '.');
    assert(parts.take(parts.len() as int) =~= parts);
    reveal_strlit(".");
    assert("."@ =~= seq!['.']);
}

/// A project filter `project:` followed by a project `p` (with no `:` in
/// it) stands for the keys of `p`: never none, one per dot-separated level
/// of `p`, the last being the filter itself.
pub proof fn lemma_project_filter_expands(p: Seq<char>)
    requires
        forall|i: int| 0 <= i < p.len() ==> p[i] != ':',
    ensures
        expand_filter("project:"@ + p) == project_keys(p),
        expand_filter("project:"@ + p).len() == count_char(p, '.') + 1,
        expand_filter("project:"@ + p).len() >= 1,
        expand_filter("project:"@ + p).last() == "project:"@ + p,
{
    reveal_strlit("project:");
    let x = "project:"@;
    let y = x.drop_last();
    assert(y =~= seq!['p', 'r', 'o', 'j', 'e', 'c', 't']);
    assert forall|i: int| 0 <= i < y.len() implies y[i] != ':' by {}
    lemma_split_without_sep(y, ':');
    assert(x.last() == ':');
    assert(split_on(x, ':') == split_on(y, ':').push(Seq::<char>::empty()));
    lemma_split_append_plain(x, p, ':');
    assert(split_on(x + p, ':')[1] =~= p);
    assert((x + p).subrange(0, 8) =~= x);
    lemma_project_keys_end_with_project(p);
}

/// A filter that does not begin with `project:` stands for itself alone.
pub proof fn lemma_other_filter_kept(f: Seq<char>)
    requires
        !has_prefix(f, "project:"@),
    ensures
        expand_filter(f) == seq![f],
{
}

/// Expanding a list of filters expands each filter in turn: the expansion
/// of two lists one after the other is the expansion of the first followed
/// by that of the second, and a single filter gives its own expansion.
pub proof fn lemma_expand_concat(a: Seq<Seq<char>>, b: Seq<Seq<char>>)
    ensures
        expand_filter_list(a + b) == expand_filter_list(a) + expand_filter_list(b),
        forall|f: Seq<char>| #[trigger] expand_filter_list(seq![f]) == expand_filter(f),
    decreases b.len(),
{
    if b.len() == 0 {
        assert(a + b =~= a);
        assert(expand_filter_list(a) + expand_filter_list(b) =~= expand_filter_list(a));
    } else {
        lemma_expand_concat(a, b.drop_last());
        assert((a + b).drop_last() =~= a + b.drop_last());
        assert((a + b).last() == b.last());
        assert(expand_filter_list(a + b) =~= expand_filter_list(a) + expand_filter_list(b));
    }
    assert forall|f: Seq<char>| #[trigger] expand_filter_list(seq![f]) == expand_filter(f) by {
        let one = seq![f];
        assert(one.len() == 1);
        assert(one.drop_last() =~= Seq::<Seq<char>>::empty());
        assert(one.last() == f);
        assert(expand_filter_list(one.drop_last()) =~= Seq::<Seq<char>>::empty());
        assert(expand_filter_list(one) == expand_filter_list(one.drop_last()) + expand_filter(f));
        assert(Seq::<Seq<char>>::empty() + expand_filter(f) =~= expand_filter(f));
    }
}

} // verus!
