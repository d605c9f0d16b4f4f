//! The small decisions of the pages: which bar template to render, the texts
//! of the undo report, which filter value to read as a query, and how the
//! answer to a new task is shaped.
use vstd::prelude::*;
use crate::text::{concatenate, same_text, decimal, append_decimal, all_digits, digits_value, lemma_decimal_denotes};

verus! {

/// The template of a bar: the left action bar when asked for by name, the
/// task action bar for any other name, and none when no bar was asked for.
pub open spec fn bar_template_text(bar: Option<Seq<char>>) -> Option<Seq<char>> {
    match bar {
        Some(b) => Some(
            if b == "left_action_bar"@ {
                "left_action_bar.html"@
            } else {
                "task_action_bar.html"@
            },
        ),
        None => None,
    }
}

/// The template to render for the bar named `bar` (see `bar_template_text`).
pub fn bar_template(bar: Option<&str>) -> (t: Option<&'static str>)
    ensures
        match t {
            Some(name) => bar_template_text(opt_str_view(bar)) == Some(name@),
            None => bar_template_text(opt_str_view(bar)) is None,
        },
        bar is None <==> t is None,
        bar is Some && bar->0@ == "left_action_bar"@ ==> t is Some && t->0@
            == "left_action_bar.html"@,
        bar is Some && bar->0@ != "left_action_bar"@ ==> t is Some && t->0@
            == "task_action_bar.html"@,
{
    match bar {
        Some(b) => {
            if same_text(b, "left_action_bar") {
                Some("left_action_bar.html")
            } else {
                Some("task_action_bar.html")
            }
        },
        None => None,
    }
}

/// The view of an optional text slice.
pub open spec fn opt_str_view(o: Option<&str>) -> Option<Seq<char>> {
    match o {
        Some(s) => Some(s@),
        None => None,
    }
}

/// The sum of a list of counts.
pub open spec fn sum_counts(v: Seq<usize>) -> int
    decreases v.len(),
{
    if v.len() == 0 {
        0
    } else {
        sum_counts(v.drop_last()) + v.last()
    }
}

proof fn lemma_sum_grows(v: Seq<usize>, i: int)
    requires
        0 <= i <= v.len(),
    ensures
        sum_counts(v.take(i)) <= sum_counts(v),
    decreases v.len() - i,
{
    if i < v.len() {
        lemma_sum_grows(v, i + 1);
        assert(v.take(i + 1).drop_last() =~= v.take(i));
    } else {
        assert(v.take(i) =~= v);
    }
}

/// The count of a list is additive: nothing counts zero, a single count
/// counts itself, and two lists one after the other count the sum of their
/// counts.
pub proof fn lemma_sum_counts_adds(a: Seq<usize>, b: Seq<usize>)
    ensures
        sum_counts(Seq::<usize>::empty()) == 0,
        forall|x: usize| #[trigger] sum_counts(seq![x]) == x,
        sum_counts(a + b) == sum_counts(a) + sum_counts(b),
    decreases b.len(),
{
    if b.len() == 0 {
        assert(a + b =~= a);
    } else {
        lemma_sum_counts_adds(a, b.drop_last());
        assert((a + b).drop_last() =~= a + b.drop_last());
        assert((a + b).last() == b.last());
    }
    assert forall|x: usize| #[trigger] sum_counts(seq![x]) == x by {
        let one = seq![x];
        assert(one.drop_last() =~= Seq::<usize>::empty());
        assert(one.last() == x);
        assert(sum_counts(one) == sum_counts(one.drop_last()) + x);
    }
}

/// The number of operations that an undo would revert: the sum of the
/// operations of each task, or `None` when it passes the largest `i64`.
pub fn count_operations(counts: &Vec<usize>) -> (n: Option<i64>)
    ensures
        match n {
            Some(k) => k == sum_counts(counts@),
            None => sum_counts(counts@) > i64::MAX,
        },
{
    let mut total: i64 = 0;
    let mut i: usize = 0;
    assert(counts@.take(0) =~= Seq::<usize>::empty());
    while i < counts.len()
        invariant
            i <= counts@.len(),
            0 <= total,
            total == sum_counts(counts@.take(i as int)),
        decreases counts@.len() - i,
    {
        assert(counts@.take(i + 1).drop_last() =~= counts@.take(i as int));
        let c = counts[i];
        if c as u64 > (i64::MAX - total) as u64 {
            proof {
                lemma_sum_grows(counts@, i + 1);
            }
            return None;
        }
        total = total + c as i64;
        i = i + 1;
    }
    assert(counts@.take(counts@.len() as int) =~= counts@);
    Some(total)
}

/// The decimal rendering of a signed number, with a `-` before a negative one.
pub open spec fn signed_decimal(n: int) -> Seq<char> {
    if n < 0 {
        "-"@ + decimal((-n) as nat)
    } else {
        decimal(n as nat)
    }
}

/// The heading of the undo report for `n` operations.
pub open spec fn undo_heading_text(n: int) -> Seq<char> {
    "The following "@ + signed_decimal(n) + " operations would be reverted"@
}

/// The heading of the undo report for `n` operations.
pub fn undo_heading(n: i64) -> (h: String)
    ensures
        h@ == undo_heading_text(n as int),
        n >= 0 ==> h@ == "The following "@ + decimal(n as nat) + " operations would be reverted"@,
        n < 0 ==> h@ == "The following "@ + "-"@ + decimal((-n) as nat)
            + " operations would be reverted"@,
{
    let mut h = String::from_str("The following ");
    let ghost start = h@;
    if n < 0 {
        h.append("-");
        let m: u64 = if n == i64::MIN {
            9223372036854775808u64
        } else {
            (-n) as u64
        };
        append_decimal(&mut h, m);
        assert(h@ =~= start + signed_decimal(n as int));
    } else {
        append_decimal(&mut h, n as u64);
        assert(h@ =~= start + signed_decimal(n as int));
    }
    h.append(" operations would be reverted");
    h
}

/// The undo heading states the whole count: for every `n`, it is "The
/// following ", then `-` when `n` is negative, then a text of decimal digits
/// without a leading zero that denotes the magnitude of `n`, then
/// " operations would be reverted".
pub proof fn lemma_undo_heading_counts(n: int)
    ensures
        n >= 0 ==> exists|d: Seq<char>|
            #![trigger digits_value(d)]
            undo_heading_text(n) == "The following "@ + d + " operations would be reverted"@
                && d.len() >= 1 && all_digits(d) && digits_value(d) == n && (d.len() > 1 ==> d[0]
                != '0'),
        n < 0 ==> exists|d: Seq<char>|
            #![trigger digits_value(d)]
            undo_heading_text(n) == "The following "@ + "-"@ + d
                + " operations would be reverted"@ && d.len() >= 1 && all_digits(d)
                && digits_value(d) == -n && (d.len() > 1 ==> d[0] != '0'),
{
    if n >= 0 {
        let d = decimal(n as nat);
        lemma_decimal_denotes(n as nat);
        assert(digits_value(d) == n);
    } else {
        let d = decimal((-n) as nat);
        lemma_decimal_denotes((-n) as nat);
        assert(digits_value(d) == -n);
    }
}

/// How a task is named in the undo report: its description followed by its
/// uuid in parentheses, or its uuid alone when the task could not be read.
pub open spec fn undo_entry_text(uuid: Seq<char>, description: Option<Seq<char>>) -> Seq<char> {
    match description {
        Some(d) => d + "("@ + uuid + ")"@,
        None => uuid,
    }
}

/// How a task is named in the undo report (see `undo_entry_text`).
pub fn undo_entry_label(uuid: &str, description: Option<&str>) -> (l: String)
    ensures
        l@ == undo_entry_text(uuid@, opt_str_view(description)),
        description is None ==> l@ == uuid@,
        description is Some ==> l@ == description->0@ + "("@ + uuid@ + ")"@,
{
    match description {
        Some(d) => {
            let a = concatenate(d, "(");
            let b = concatenate(a.as_str(), uuid);
            concatenate(b.as_str(), ")")
        },
        None => String::from_str(uuid),
    }
}

/// The filter value that the new-task window reads as a query: none when
/// there is no value or an empty one (the default query is used then).
pub fn query_text(filter_value: &Option<String>) -> (t: Option<&String>)
    ensures
        match t {
            Some(v) => filter_value matches Some(f) && f@.len() > 0 && v@ == f@,
            None => filter_value matches Some(f) ==> f@.len() == 0,
        },
{
    match filter_value {
        Some(v) => {
            if v.as_str().unicode_len() == 0 {
                None
            } else {
                Some(v)
            }
        },
        None => None,
    }
}

/// The status and headers of the answer to a new task: `201 Created`
/// retargeting the task list when the task was added, `200 OK` with the
/// form again otherwise.
pub fn new_task_response(created: bool) -> (r: (u16, Vec<(&'static str, &'static str)>))
    ensures
        created ==> r.0 == 201 && r.1@.len() == 3 && r.1@[0].0@ == "HX-Retarget"@ && r.1@[0].1@
            == "#list-of-tasks"@ && r.1@[1].0@ == "HX-Reswap"@ && r.1@[1].1@ == "innerHTML"@
            && r.1@[2].0@ == "Content-Type"@ && r.1@[2].1@ == "text/html"@,
        !created ==> r.0 == 200 && r.1@.len() == 1 && r.1@[0].0@ == "Content-Type"@ && r.1@[0].1@
            == "text/html"@,
{
    let mut headers: Vec<(&'static str, &'static str)> = Vec::new();
    if created {
        headers.push(("HX-Retarget", "#list-of-tasks"));
        headers.push(("HX-Reswap", "innerHTML"));
        headers.push(("Content-Type", "text/html"));
        (201, headers)
    } else {
        headers.push(("Content-Type", "text/html"));
        (200, headers)
    }
}

} // verus!
