//! The task tracker driven through its command line, `bd`.
use vstd::prelude::*;
use vstd::string::*;

use crate::adapters::shell::{
    arg_views, check_output, checked_from, decode_json_output, json_output, unit_of,
    printed, CommandOutput, ShellCommandRunner, ShellRun,
};
use crate::config::opt_view;
use crate::contracts::{normalized, SpawnTaskCandidate, SpawnTaskKind, Task, TaskStatus};
use crate::error::{LoopError, Result};
use crate::json::Json;
use crate::loop_runner::{appended, grew, opt_str_view, BeadsCall, BeadsClient};
use crate::text::{decimal, decimal_string, join, join_strings, join_strs, trim, trim_str, views};

verus! {

/// The tracker, reached through a shell.
pub struct BeadsCli<S: ShellCommandRunner> {
    shell: Box<S>,
    default_prefix: String,
    calls: Ghost<Seq<BeadsCall>>,
    runs: Ghost<Seq<ShellRun>>,
}

/// The status that a tracker status text stands for; an unknown one is open.
pub open spec fn status_of(raw: Seq<char>) -> TaskStatus {
    if raw == "open"@ {
        TaskStatus::Open
    } else if raw == "in_progress"@ {
        TaskStatus::InProgress
    } else if raw == "blocked"@ {
        TaskStatus::Blocked
    } else if raw == "deferred"@ {
        TaskStatus::Deferred
    } else if raw == "closed"@ {
        TaskStatus::Closed
    } else {
        TaskStatus::Open
    }
}

/// The text of a member, or empty text.
pub open spec fn text_or_empty(v: Json, key: Seq<char>) -> Seq<char> {
    match v.field_text(key) {
        Some(s) => s,
        None => Seq::empty(),
    }
}

/// The string items of an array, in order; other items are skipped.
pub open spec fn string_items(items: Seq<Json>) -> Seq<Seq<char>>
    decreases items.len(),
{
    if items.len() == 0 {
        Seq::empty()
    } else {
        match items.last().text() {
            Some(s) => string_items(items.drop_last()).push(s),
            None => string_items(items.drop_last()),
        }
    }
}

/// A tracker record makes a task when it has a non-empty string id.
pub open spec fn has_task_id(v: Json) -> bool {
    text_or_empty(v, "id"@).len() > 0
}

/// `t` is the task read from the tracker record `v`: the title defaults to the
/// id, the description to empty text, the status to open, the labels to none;
/// the parent is `parent`, or else `parent_id`.
pub open spec fn task_from_record(v: Json, t: Task) -> bool {
    let id = text_or_empty(v, "id"@);
    &&& t.id@ == id
    &&& t.title@ == match v.field_text("title"@) {
        Some(s) => s,
        None => id,
    }
    &&& t.description@ == text_or_empty(v, "description"@)
    &&& t.status == match v.field_text("status"@) {
        Some(s) => status_of(s),
        None => TaskStatus::Open,
    }
    &&& views(t.labels@) == match v.field_items("labels"@) {
        Some(items) => string_items(items),
        None => Seq::empty(),
    }
    &&& opt_view(t.parent_id) == match v.field_text("parent"@) {
        Some(p) => Some(p),
        None => v.field_text("parent_id"@),
    }
}

/// `ts` are the tasks read from the records `items`, in order; records without
/// an id are skipped.
pub open spec fn tasks_from_records(items: Seq<Json>, ts: Seq<Task>) -> bool
    decreases items.len(),
{
    if items.len() == 0 {
        ts.len() == 0
    } else if has_task_id(items.last()) {
        &&& ts.len() > 0
        &&& task_from_record(items.last(), ts.last())
        &&& tasks_from_records(items.drop_last(), ts.drop_last())
    } else {
        tasks_from_records(items.drop_last(), ts)
    }
}

/// `ts` are the tasks of a tracker document: an array of records, an object
/// with an `issues` array, or a single record.
pub open spec fn tasks_from_document(v: Json, ts: Seq<Task>) -> bool {
    match v {
        Json::Array(items) => tasks_from_records(items@, ts),
        Json::Object(_, _) => match v.field_items("issues"@) {
            Some(items) => tasks_from_records(items, ts),
            None => if has_task_id(v) {
                ts.len() == 1 && task_from_record(v, ts[0])
            } else {
                ts.len() == 0
            },
        },
        _ => ts.len() == 0,
    }
}

/// The label that records what a child task is for.
pub open spec fn kind_label(kind: SpawnTaskKind) -> Seq<char> {
    match kind {
        SpawnTaskKind::Decomposition => "loop:kind:decomposition"@,
        SpawnTaskKind::Backlog => "loop:kind:backlog"@,
        SpawnTaskKind::Performance => "loop:kind:performance"@,
        SpawnTaskKind::Quality => "loop:kind:quality"@,
        SpawnTaskKind::Tests => "loop:kind:tests"@,
    }
}

/// The label that records whether a child blocks its parent.
pub open spec fn blocking_label(blocking: bool) -> Seq<char> {
    if blocking {
        "loop:blocking"@
    } else {
        "loop:followup"@
    }
}

/// The labels of a child: the candidate's own, its kind, whether it blocks.
pub open spec fn child_labels(c: SpawnTaskCandidate) -> Seq<Seq<char>> {
    views(c.labels@).push(kind_label(c.kind)).push(blocking_label(c.blocking))
}

/// The priority of a child task: the candidate's, capped at 4.
pub open spec fn capped_priority(p: u8) -> nat {
    if p < 4 {
        p as nat
    } else {
        4
    }
}

pub open spec fn bootstrap_title(goal: Seq<char>) -> Seq<char> {
    "[Bootstrap] Product storm: "@ + goal
}

pub open spec fn bootstrap_description(goal: Seq<char>) -> Seq<char> {
    "Auto-created bootstrap task for agent-loop.\nProduct storm goal: "@ + goal
}

/// The first of each id, in strictly ascending order of ids.
pub open spec fn id_lt(a: Seq<char>, b: Seq<char>) -> bool
    decreases a.len(),
{
    if a.len() == 0 {
        b.len() > 0
    } else if b.len() == 0 {
        false
    } else if a[0] < b[0] {
        true
    } else if a[0] > b[0] {
        false
    } else {
        id_lt(a.drop_first(), b.drop_first())
    }
}

/// The ids of `r` ascend strictly.
pub open spec fn ascending_ids(r: Seq<Task>) -> bool {
    forall|i: int, j: int| 0 <= i < j < r.len() ==> id_lt(#[trigger] r[i].id@, #[trigger] r[j].id@)
}

/// `tasks[i]` is the first task of `tasks` with its id.
pub open spec fn first_with_its_id(tasks: Seq<Task>, i: int) -> bool {
    forall|j: int| 0 <= j < i ==> #[trigger] tasks[j].id@ != tasks[i].id@
}

/// `t` is the first task of `tasks` with its id.
pub open spec fn is_first_of_id(tasks: Seq<Task>, t: Task) -> bool {
    exists|i: int| 0 <= i < tasks.len() && #[trigger] tasks[i] == t && first_with_its_id(tasks, i)
}

/// Each task of `r` is the first task of `tasks` with its id.
pub open spec fn firsts_of(tasks: Seq<Task>, r: Seq<Task>) -> bool {
    forall|k: int| 0 <= k < r.len() ==> is_first_of_id(tasks, #[trigger] r[k])
}

/// Some task of `r` has the id `id`.
pub open spec fn has_id(r: Seq<Task>, id: Seq<char>) -> bool {
    exists|k: int| 0 <= k < r.len() && #[trigger] r[k].id@ == id
}

/// Each id of `tasks` is an id of `r`.
pub open spec fn covers_ids(tasks: Seq<Task>, r: Seq<Task>) -> bool {
    forall|i: int| 0 <= i < tasks.len() ==> has_id(r, #[trigger] tasks[i].id@)
}

/// `r` is `tasks` sorted by id, keeping the first task of each id.
pub open spec fn sorted_first_of_each_id(tasks: Seq<Task>, r: Seq<Task>) -> bool {
    &&& ascending_ids(r)
    &&& firsts_of(tasks, r)
    &&& covers_ids(tasks, r)
}

proof fn lemma_id_lt_irreflexive(a: Seq<char>)
    ensures
        !id_lt(a, a),
    decreases a.len(),
{
    if a.len() > 0 {
        lemma_id_lt_irreflexive(a.drop_first());
    }
}

proof fn lemma_id_lt_total(a: Seq<char>, b: Seq<char>)
    requires
        a != b,
    ensures
        id_lt(a, b) || id_lt(b, a),
    decreases a.len(),
{
    if a.len() > 0 && b.len() > 0 && a[0] == b[0] {
        if a.drop_first() == b.drop_first() {
            assert(a =~= seq![a[0]] + a.drop_first());
            assert(b =~= seq![b[0]] + b.drop_first());
        }
        lemma_id_lt_total(a.drop_first(), b.drop_first());
    } else if a.len() == 0 && b.len() == 0 {
        assert(a =~= b);
    }
}

proof fn lemma_id_lt_transitive(a: Seq<char>, b: Seq<char>, c: Seq<char>)
    requires
        id_lt(a, b),
        id_lt(b, c),
    ensures
        id_lt(a, c),
    decreases a.len(),
{
    if a.len() > 0 && b.len() > 0 && c.len() > 0 {
        if a[0] == b[0] && b[0] == c[0] {
            lemma_id_lt_transitive(a.drop_first(), b.drop_first(), c.drop_first());
        }
    }
}

/// Whether one id sorts before another.
pub fn id_less(a: &String, b: &String) -> (r: bool)
    ensures
        r == id_lt(a@, b@),
{
    let x = crate::text::chars_of(a.as_str());
    let y = crate::text::chars_of(b.as_str());
    let mut i: usize = 0;
    assert(a@.skip(0) =~= a@);
    assert(b@.skip(0) =~= b@);
    while i < x.len() && i < y.len() && x[i] == y[i]
        invariant
            i <= x.len(),
            i <= y.len(),
            x@ == a@,
            y@ == b@,
            id_lt(a@, b@) == id_lt(a@.skip(i as int), b@.skip(i as int)),
        decreases x.len() - i,
    {
        assert(a@.skip(i as int).drop_first() =~= a@.skip(i + 1));
        assert(b@.skip(i as int).drop_first() =~= b@.skip(i + 1));
        i = i + 1;
    }
    let ghost sa = a@.skip(i as int);
    let ghost sb = b@.skip(i as int);
    if i == x.len() {
        assert(sa.len() == 0);
        i < y.len()
    } else if i == y.len() {
        assert(sb.len() == 0);
        false
    } else {
        assert(sa[0] == x@[i as int]);
        assert(sb[0] == y@[i as int]);
        x[i] < y[i]
    }
}

proof fn lemma_first_extend(prev: Seq<Task>, t: Task, u: Task)
    requires
        is_first_of_id(prev, u),
    ensures
        is_first_of_id(prev.push(t), u),
{
    let next = prev.push(t);
    let i = choose|i: int| 0 <= i < prev.len() && #[trigger] prev[i] == u && first_with_its_id(prev, i);
    assert(next[i] == u);
    assert forall|j: int| 0 <= j < i implies #[trigger] next[j].id@ != next[i].id@ by {
        assert(next[j] == prev[j]);
    }
}

proof fn lemma_firsts_extend(prev: Seq<Task>, t: Task, r: Seq<Task>)
    requires
        firsts_of(prev, r),
    ensures
        firsts_of(prev.push(t), r),
{
    assert forall|k: int| 0 <= k < r.len() implies is_first_of_id(prev.push(t), #[trigger] r[k]) by {
        lemma_first_extend(prev, t, r[k]);
    }
}

proof fn lemma_covers_extend(prev: Seq<Task>, t: Task, r: Seq<Task>)
    requires
        covers_ids(prev, r),
        has_id(r, t.id@),
    ensures
        covers_ids(prev.push(t), r),
{
    let next = prev.push(t);
    assert forall|i: int| 0 <= i < next.len() implies has_id(r, #[trigger] next[i].id@) by {
        if i < prev.len() {
            assert(next[i] == prev[i]);
        }
    }
}

proof fn lemma_dedup_skip(prev: Seq<Task>, t: Task, r: Seq<Task>, p: int)
    requires
        sorted_first_of_each_id(prev, r),
        0 <= p < r.len(),
        r[p].id@ == t.id@,
    ensures
        sorted_first_of_each_id(prev.push(t), r),
{
    lemma_firsts_extend(prev, t, r);
    assert(has_id(r, t.id@));
    lemma_covers_extend(prev, t, r);
}

proof fn lemma_insert_ascending(r: Seq<Task>, t: Task, p: int)
    requires
        ascending_ids(r),
        0 <= p <= r.len(),
        forall|j: int| 0 <= j < p ==> id_lt(#[trigger] r[j].id@, t.id@),
        forall|j: int| p <= j < r.len() ==> id_lt(t.id@, #[trigger] r[j].id@),
    ensures
        ascending_ids(r.insert(p, t)),
{
    let r2 = r.insert(p, t);
    assert forall|i: int, j: int| 0 <= i < j < r2.len() implies id_lt(
        #[trigger] r2[i].id@,
        #[trigger] r2[j].id@,
    ) by {
        if j < p {
            assert(r2[i] == r[i] && r2[j] == r[j]);
        } else if j == p {
            assert(r2[i] == r[i]);
        } else if i < p {
            assert(r2[i] == r[i] && r2[j] == r[j - 1]);
            lemma_id_lt_transitive(r[i].id@, t.id@, r[j - 1].id@);
        } else if i == p {
            assert(r2[j] == r[j - 1]);
        } else {
            assert(r2[i] == r[i - 1] && r2[j] == r[j - 1]);
        }
    }
}

proof fn lemma_insert_firsts(prev: Seq<Task>, t: Task, r: Seq<Task>, p: int)
    requires
        firsts_of(prev, r),
        covers_ids(prev, r),
        0 <= p <= r.len(),
        forall|j: int| 0 <= j < r.len() ==> #[trigger] r[j].id@ != t.id@,
    ensures
        firsts_of(prev.push(t), r.insert(p, t)),
{
    let next = prev.push(t);
    let r2 = r.insert(p, t);
    assert forall|k: int| 0 <= k < r2.len() implies is_first_of_id(next, #[trigger] r2[k]) by {
        if k == p {
            let i = prev.len() as int;
            assert(next[i] == t);
            assert forall|j: int| 0 <= j < i implies #[trigger] next[j].id@ != next[i].id@ by {
                assert(next[j] == prev[j]);
                assert(has_id(r, prev[j].id@));
                let m = choose|m: int| 0 <= m < r.len() && #[trigger] r[m].id@ == prev[j].id@;
                assert(r[m].id@ != t.id@);
            }
            assert(first_with_its_id(next, i));
        } else {
            let k0 = if k < p { k } else { k - 1 };
            assert(r2[k] == r[k0]);
            lemma_first_extend(prev, t, r[k0]);
        }
    }
}

proof fn lemma_insert_covers(prev: Seq<Task>, t: Task, r: Seq<Task>, p: int)
    requires
        covers_ids(prev, r),
        0 <= p <= r.len(),
    ensures
        covers_ids(prev.push(t), r.insert(p, t)),
{
    let next = prev.push(t);
    let r2 = r.insert(p, t);
    assert forall|i: int| 0 <= i < next.len() implies has_id(r2, #[trigger] next[i].id@) by {
        if i < prev.len() {
            assert(next[i] == prev[i]);
            assert(has_id(r, prev[i].id@));
            let k = choose|k: int| 0 <= k < r.len() && #[trigger] r[k].id@ == prev[i].id@;
            let k2 = if k < p { k } else { k + 1 };
            assert(r2[k2] == r[k]);
        } else {
            assert(r2[p] == t);
        }
    }
}

proof fn lemma_dedup_insert(prev: Seq<Task>, t: Task, r: Seq<Task>, p: int)
    requires
        sorted_first_of_each_id(prev, r),
        0 <= p <= r.len(),
        forall|j: int| 0 <= j < p ==> id_lt(#[trigger] r[j].id@, t.id@),
        p < r.len() ==> !id_lt(r[p].id@, t.id@) && r[p].id@ != t.id@,
    ensures
        sorted_first_of_each_id(prev.push(t), r.insert(p, t)),
{
    assert forall|j: int| p <= j < r.len() implies id_lt(t.id@, #[trigger] r[j].id@) by {
        lemma_id_lt_total(r[p].id@, t.id@);
        if j > p {
            lemma_id_lt_transitive(t.id@, r[p].id@, r[j].id@);
        }
    }
    assert forall|j: int| 0 <= j < r.len() implies #[trigger] r[j].id@ != t.id@ by {
        if j < p {
            assert(id_lt(r[j].id@, t.id@));
        } else {
            assert(id_lt(t.id@, r[j].id@));
        }
        if r[j].id@ == t.id@ {
            lemma_id_lt_irreflexive(t.id@);
        }
    }
    lemma_insert_ascending(r, t, p);
    lemma_insert_firsts(prev, t, r, p);
    lemma_insert_covers(prev, t, r, p);
}

/// Sorts tasks by id and keeps the first task of each id.
pub fn sort_dedup_by_id(tasks: Vec<Task>) -> (r: Vec<Task>)
    ensures
        sorted_first_of_each_id(tasks@, r@),
{
    let ghost orig = tasks@;
    let mut rest = tasks;
    let mut r: Vec<Task> = Vec::new();
    let ghost mut k: int = 0;
    assert(orig.skip(0) =~= orig);
    while rest.len() > 0
        invariant
            0 <= k <= orig.len(),
            rest@ == orig.skip(k),
            sorted_first_of_each_id(orig.take(k), r@),
        decreases rest.len(),
    {
        let t = rest.remove(0);
        assert(t == orig[k]);
        assert(rest@ =~= orig.skip(k + 1));
        assert(orig.take(k + 1) =~= orig.take(k).push(t));
        let mut p: usize = 0;
        while p < r.len() && id_less(&r[p].id, &t.id)
            invariant
                p <= r.len(),
                forall|j: int| 0 <= j < p ==> id_lt(#[trigger] r@[j].id@, t.id@),
            decreases r.len() - p,
        {
            p = p + 1;
        }
        let dup = p < r.len() && r[p].id == t.id;
        proof {
            if dup {
                lemma_dedup_skip(orig.take(k), t, r@, p as int);
            } else {
                lemma_dedup_insert(orig.take(k), t, r@, p as int);
            }
        }
        if !dup {
            r.insert(p, t);
        }
        proof {
            k = k + 1;
        }
    }
    assert(orig.take(k) =~= orig);
    r
}

/// The tasks that are not closed, in order.
pub open spec fn open_only(tasks: Seq<Task>) -> Seq<Task> {
    tasks.filter(|t: Task| t.status != TaskStatus::Closed)
}

/// The tasks whose normalized title is `target`, and, when `parent` is given,
/// whose parent is `parent`; in order.
pub open spec fn titled(tasks: Seq<Task>, target: Seq<char>, parent: Option<Seq<char>>) -> Seq<Task> {
    tasks.filter(
        |t: Task|
            normalized(t.title@) == target && match parent {
                Some(p) => opt_view(t.parent_id) == Some(p),
                None => true,
            },
    )
}

/// The status that a tracker status text stands for.
pub fn map_status(raw: &str) -> (r: TaskStatus)
    ensures
        r == status_of(raw@),
{
    let s = String::from_str(raw);
    if s == String::from_str("open") {
        TaskStatus::Open
    } else if s == String::from_str("in_progress") {
        TaskStatus::InProgress
    } else if s == String::from_str("blocked") {
        TaskStatus::Blocked
    } else if s == String::from_str("deferred") {
        TaskStatus::Deferred
    } else if s == String::from_str("closed") {
        TaskStatus::Closed
    } else {
        TaskStatus::Open
    }
}

/// The string items of an array.
pub fn string_values(items: &Vec<Json>) -> (r: Vec<String>)
    ensures
        views(r@) == string_items(items@),
{
    let mut r: Vec<String> = Vec::new();
    let mut i: usize = 0;
    while i < items.len()
        invariant
            i <= items@.len(),
            views(r@) == string_items(items@.take(i as int)),
        decreases items.len() - i,
    {
        let ghost before = r@;
        assert(items@.take(i + 1).drop_last() =~= items@.take(i as int));
        match items[i].as_str() {
            Some(s) => {
                r.push(s.clone());
                assert(views(r@) =~= views(before).push(s@));
            },
            None => {},
        }
        i = i + 1;
    }
    assert(items@.take(items@.len() as int) =~= items@);
    r
}

/// Reads a task from a tracker record; a record without a non-empty id is none.
pub fn parse_task(value: &Json) -> (r: Option<Task>)
    ensures
        match r {
            Some(t) => has_task_id(*value) && task_from_record(*value, t),
            None => !has_task_id(*value),
        },
{
    let id = match value.get_str("id") {
        Some(s) => s.clone(),
        None => String::new(),
    };
    if id.as_str().is_empty() {
        return None;
    }
    let title = match value.get_str("title") {
        Some(s) => s.clone(),
        None => id.clone(),
    };
    let description = match value.get_str("description") {
        Some(s) => s.clone(),
        None => String::new(),
    };
    let status = match value.get_str("status") {
        Some(s) => map_status(s.as_str()),
        None => TaskStatus::Open,
    };
    let labels = match value.get_array("labels") {
        Some(items) => string_values(items),
        None => Vec::new(),
    };
    let parent_id = match value.get_str("parent") {
        Some(s) => Some(s.clone()),
        None => match value.get_str("parent_id") {
            Some(s) => Some(s.clone()),
            None => None,
        },
    };
    proof {
        if value.field_items("labels"@) is None {
            assert(views(labels@) =~= Seq::<Seq<char>>::empty());
        }
    }
    Some(Task { id, title, description, status, labels, parent_id })
}

/// Reads the tasks of a list of tracker records.
pub fn parse_records(items: &Vec<Json>) -> (r: Vec<Task>)
    ensures
        tasks_from_records(items@, r@),
{
    let mut r: Vec<Task> = Vec::new();
    let mut i: usize = 0;
    while i < items.len()
        invariant
            i <= items@.len(),
            tasks_from_records(items@.take(i as int), r@),
        decreases items.len() - i,
    {
        let ghost before = r@;
        let ghost pre = items@.take(i as int);
        assert(items@.take(i + 1).drop_last() =~= pre);
        assert(items@.take(i + 1).last() == items@[i as int]);
        match parse_task(&items[i]) {
            Some(t) => {
                r.push(t);
                assert(r@.drop_last() =~= before);
            },
            None => {},
        }
        i = i + 1;
    }
    assert(items@.take(items@.len() as int) =~= items@);
    r
}

/// Reads the tasks of a tracker document.
pub fn parse_tasks(value: &Json) -> (r: Vec<Task>)
    ensures
        tasks_from_document(*value, r@),
{
    match value {
        Json::Array(items) => parse_records(items),
        Json::Object(_, _) => {
            match value.get_array("issues") {
                Some(items) => parse_records(items),
                None => {
                    let mut r: Vec<Task> = Vec::new();
                    match parse_task(value) {
                        Some(t) => r.push(t),
                        None => {},
                    }
                    r
                },
            }
        },
        _ => Vec::new(),
    }
}

/// The tasks that are not closed.
pub fn keep_open(tasks: Vec<Task>) -> (r: Vec<Task>)
    ensures
        r@ == open_only(tasks@),
{
    let ghost orig = tasks@;
    let mut rest = tasks;
    let mut r: Vec<Task> = Vec::new();
    let ghost mut k: int = 0;
    assert(orig.skip(0) =~= orig);
    while rest.len() > 0
        invariant
            0 <= k <= orig.len(),
            rest@ == orig.skip(k),
            r@ == open_only(orig.take(k)),
        decreases rest.len(),
    {
        let t = rest.remove(0);
        assert(rest@ =~= orig.skip(k + 1));
        assert(orig.take(k + 1).drop_last() =~= orig.take(k));
        reveal_with_fuel(Seq::filter, 1);
        if t.is_open() {
            r.push(t);
        }
        proof {
            k = k + 1;
        }
    }
    assert(orig.take(k) =~= orig);
    r
}

/// The tasks with a normalized title, and, when a parent is given, with that parent.
pub fn keep_titled(tasks: Vec<Task>, target: &String, parent: Option<&str>) -> (r: Vec<Task>)
    ensures
        r@ == titled(tasks@, target@, match parent {
            Some(p) => Some(p@),
            None => None,
        }),
{
    let ghost orig = tasks@;
    let ghost pv = match parent {
        Some(p) => Some(p@),
        None => None::<Seq<char>>,
    };
    let mut rest = tasks;
    let mut r: Vec<Task> = Vec::new();
    let ghost mut k: int = 0;
    assert(orig.skip(0) =~= orig);
    while rest.len() > 0
        invariant
            0 <= k <= orig.len(),
            rest@ == orig.skip(k),
            pv == match parent {
                Some(p) => Some(p@),
                None => None::<Seq<char>>,
            },
            r@ == titled(orig.take(k), target@, pv),
        decreases rest.len(),
    {
        let t = rest.remove(0);
        assert(rest@ =~= orig.skip(k + 1));
        assert(orig.take(k + 1).drop_last() =~= orig.take(k));
        reveal_with_fuel(Seq::filter, 1);
        let title = task_normalized_title(&t);
        let same_parent = match parent {
            Some(p) => match &t.parent_id {
                Some(q) => *q == String::from_str(p),
                None => false,
            },
            None => true,
        };
        if title == *target && same_parent {
            r.push(t);
        }
        proof {
            k = k + 1;
        }
    }
    assert(orig.take(k) =~= orig);
    r
}

/// The labels of a child task.
pub fn candidate_labels(candidate: &SpawnTaskCandidate) -> (r: Vec<String>)
    ensures
        views(r@) == child_labels(*candidate),
{
    let mut labels: Vec<String> = Vec::new();
    let mut i: usize = 0;
    while i < candidate.labels.len()
        invariant
            i <= candidate.labels@.len(),
            views(labels@) == views(candidate.labels@.take(i as int)),
        decreases candidate.labels.len() - i,
    {
        let ghost before = labels@;
        labels.push(candidate.labels[i].clone());
        assert(candidate.labels@.take(i + 1) =~= candidate.labels@.take(i as int).push(
            candidate.labels@[i as int],
        ));
        assert(views(labels@) =~= views(before).push(candidate.labels@[i as int]@));
        assert(views(candidate.labels@.take(i + 1)) =~= views(candidate.labels@.take(i as int)).push(
            candidate.labels@[i as int]@,
        ));
        i = i + 1;
    }
    assert(candidate.labels@.take(candidate.labels@.len() as int) =~= candidate.labels@);
    let kind = match candidate.kind {
        SpawnTaskKind::Decomposition => "loop:kind:decomposition",
        SpawnTaskKind::Backlog => "loop:kind:backlog",
        SpawnTaskKind::Performance => "loop:kind:performance",
        SpawnTaskKind::Quality => "loop:kind:quality",
        SpawnTaskKind::Tests => "loop:kind:tests",
    };
    let ghost l0 = labels@;
    labels.push(String::from_str(kind));
    let ghost l1 = labels@;
    labels.push(
        if candidate.blocking {
            String::from_str("loop:blocking")
        } else {
            String::from_str("loop:followup")
        },
    );
    assert(views(labels@) =~= views(l0).push(kind_label(candidate.kind)).push(
        blocking_label(candidate.blocking),
    ));
    labels
}

/// The priority argument of a child task.
pub fn child_priority(priority: u8) -> (r: String)
    ensures
        r@ == decimal(capped_priority(priority)),
{
    let p: u8 = if priority < 4 {
        priority
    } else {
        4
    };
    decimal_string(p as u64)
}

/// The title of a bootstrap task.
pub fn make_bootstrap_title(goal: &str) -> (r: String)
    ensures
        r@ == bootstrap_title(goal@),
{
    let mut r = String::from_str("[Bootstrap] Product storm: ");
    r.append(goal);
    r
}

/// The description of a bootstrap task.
pub fn make_bootstrap_description(goal: &str) -> (r: String)
    ensures
        r@ == bootstrap_description(goal@),
{
    let mut r = String::from_str("Auto-created bootstrap task for agent-loop.\nProduct storm goal: ");
    r.append(goal);
    r
}

/// The normalized title of a task.
pub fn task_normalized_title(t: &Task) -> (r: String)
    ensures
        r@ == normalized(t.title@),
{
    let lower = crate::text::to_lowercase(t.title.as_str());
    trim_str(lower.as_str())
}

/// The last task of a listing, or the failure to find the task `task_id`.
pub fn last_task(tasks: Vec<Task>, task_id: &str) -> (r: Result<Task>)
    ensures
        match r {
            Ok(t) => tasks@.len() > 0 && t == tasks@.last(),
            Err(LoopError::TaskNotFound { task_id: id }) => tasks@.len() == 0 && id@ == task_id@,
            Err(_) => false,
        },
{
    let mut tasks = tasks;
    match tasks.pop() {
        Some(t) => Ok(t),
        None => Err(LoopError::TaskNotFound { task_id: String::from_str(task_id) }),
    }
}

/// Every task of `v` has the normalized title `target`.
pub open spec fn all_titled(v: Seq<Task>, target: Seq<char>) -> bool {
    forall|i: int| 0 <= i < v.len() ==> normalized(#[trigger] v[i].title@) == target
}

proof fn lemma_titled_all(tasks: Seq<Task>, target: Seq<char>, parent: Option<Seq<char>>)
    ensures
        all_titled(titled(tasks, target, parent), target),
{
    let pred = |t: Task|
        normalized(t.title@) == target && match parent {
            Some(p) => opt_view(t.parent_id) == Some(p),
            None => true,
        };
    assert forall|i: int| 0 <= i < titled(tasks, target, parent).len() implies normalized(
        #[trigger] titled(tasks, target, parent)[i].title@,
    ) == target by {
        tasks.lemma_filter_pred(pred, i);
    }
}

proof fn lemma_dedup_titled(m: Seq<Task>, v: Seq<Task>, target: Seq<char>)
    requires
        all_titled(m, target),
        sorted_first_of_each_id(m, v),
    ensures
        all_titled(v, target),
{
    assert forall|k: int| 0 <= k < v.len() implies normalized(#[trigger] v[k].title@) == target by {
        assert(is_first_of_id(m, v[k]));
        let i = choose|i: int| 0 <= i < m.len() && #[trigger] m[i] == v[k] && first_with_its_id(m, i);
        assert(normalized(m[i].title@) == target);
    }
}

/// Every task of `v` is not closed.
pub open spec fn all_open(v: Seq<Task>) -> bool {
    forall|i: int| 0 <= i < v.len() ==> (#[trigger] v[i]).status != TaskStatus::Closed
}

proof fn lemma_titled_all_parts(a: Seq<Task>, b: Seq<Task>, target: Seq<char>)
    requires
        all_titled(a, target),
        all_titled(b, target),
    ensures
        all_titled(a + b, target),
{
    assert forall|i: int| 0 <= i < (a + b).len() implies normalized(#[trigger] (a + b)[i].title@)
        == target by {
        if i < a.len() {
            assert((a + b)[i] == a[i]);
        } else {
            assert((a + b)[i] == b[i - a.len()]);
        }
    }
}

/// `r` is what decoding the checked output `s` of `bd args` as JSON yields.
pub open spec fn json_from(args: Seq<Seq<char>>, s: Result<String>, r: Result<Json>) -> bool {
    match s {
        Err(e) => r == Err::<Json, LoopError>(e),
        Ok(text) => match json_output(text@) {
            Ok(v) => r == Ok::<Json, LoopError>(v),
            Err(_) => (r matches Err(LoopError::InvalidJson { program: p, args: a }) && p@ == "bd"@
                && a@ == join(args, " "@)),
        },
    }
}

pub open spec fn show_args(id: Seq<char>) -> Seq<Seq<char>> {
    seq!["show"@, id, "--json"@]
}

pub open spec fn claim_args(id: Seq<char>) -> Seq<Seq<char>> {
    seq!["update"@, id, "--claim"@]
}

pub open spec fn children_args(parent_id: Seq<char>) -> Seq<Seq<char>> {
    seq!["children"@, parent_id, "--json"@]
}

pub open spec fn where_args() -> Seq<Seq<char>> {
    seq!["where"@]
}

pub open spec fn init_args(prefix: Seq<char>) -> Seq<Seq<char>> {
    seq!["init"@, "--prefix"@, prefix]
}

pub open spec fn bootstrap_args(goal: Seq<char>) -> Seq<Seq<char>> {
    seq![
        "create"@,
        "--title"@,
        bootstrap_title(goal),
        "--description"@,
        bootstrap_description(goal),
        "--type"@,
        "feature"@,
        "--priority"@,
        "2"@,
        "--labels"@,
        "loop:bootstrap"@,
        "--silent"@,
    ]
}

pub open spec fn ready_args() -> Seq<Seq<char>> {
    seq!["ready"@, "--json"@, "--limit"@, "1"@]
}

pub open spec fn sync_args() -> Seq<Seq<char>> {
    seq!["sync"@, "--flush-only"@]
}

pub open spec fn search_args(query: Seq<char>) -> Seq<Seq<char>> {
    seq!["search"@, "--query"@, query, "--status"@, "open"@, "--limit"@, "20"@, "--json"@]
}

pub open spec fn child_args(parent_id: Seq<char>, c: SpawnTaskCandidate) -> Seq<Seq<char>> {
    seq![
        "create"@,
        "--title"@,
        c.title@,
        "--description"@,
        c.description@,
        "--type"@,
        "task"@,
        "--parent"@,
        parent_id,
        "--priority"@,
        decimal(capped_priority(c.priority)),
        "--labels"@,
        join(child_labels(c), ","@),
        "--silent"@,
    ]
}

pub open spec fn dep_args(child_id: Seq<char>, parent_id: Seq<char>) -> Seq<Seq<char>> {
    seq!["dep"@, child_id, "--blocks"@, parent_id]
}

pub open spec fn notes_args(task_id: Seq<char>, notes: Seq<char>) -> Seq<Seq<char>> {
    seq!["update"@, task_id, "--notes"@, notes]
}

/// The tasks that a search found: none when it failed.
pub open spec fn search_found(j: Result<Json>, found: Seq<Task>) -> bool {
    match j {
        Err(_) => found.len() == 0,
        Ok(v) => tasks_from_document(v, found),
    }
}

/// `r` is the last task of the listing `ts`, or the failure to find task `id`.
pub open spec fn last_of(ts: Seq<Task>, id: Seq<char>, r: Result<Task>) -> bool {
    match r {
        Ok(t) => ts.len() > 0 && t == ts.last(),
        Err(LoopError::TaskNotFound { task_id }) => ts.len() == 0 && task_id@ == id,
        Err(_) => false,
    }
}

/// `r` is what running `bd` with `args` through `runner` and checking its exit yields.
pub open spec fn bd_checked<S: ShellCommandRunner>(runner: S, args: Seq<Seq<char>>, r: Result<String>) -> bool {
    exists|out: Result<CommandOutput>|
        #[trigger] runner.may_give("bd"@, args, out) && checked_from("bd"@, args, out, r)
}

/// `r` is what running `bd` with `args` through `runner` and decoding its
/// output as JSON yields.
pub open spec fn bd_json<S: ShellCommandRunner>(runner: S, args: Seq<Seq<char>>, r: Result<Json>) -> bool {
    exists|s: Result<String>| #[trigger] bd_checked(runner, args, s) && json_from(args, s, r)
}

/// `r` is the task `id` as `bd show` prints it: the last task of the listing.
pub open spec fn bd_show<S: ShellCommandRunner>(
    runner: S, id: Seq<char>, r: Result<Task>) -> bool {
    exists|j: Result<Json>|
        #[trigger] bd_json(runner, show_args(id), j) && match j {
            Err(e) => r == Err::<Task, LoopError>(e),
            Ok(v) => exists|ts: Seq<Task>| #[trigger] tasks_from_document(v, ts) && last_of(ts, id, r),
        }
}

/// `r` is what claiming `id` yields: nothing to do unless `claim` is set,
/// else `bd update id --claim`.
pub open spec fn bd_claim_step<S: ShellCommandRunner>(
    runner: S, id: Seq<char>, claim: bool, r: Result<()>) -> bool {
    if !claim {
        r == Ok::<(), LoopError>(())
    } else {
        exists|s: Result<String>|
            #[trigger] bd_checked(runner, claim_args(id), s) && unit_of(s, r)
    }
}

/// `r` is the open children of `parent_id` as `bd children` lists them.
pub open spec fn bd_open_children<S: ShellCommandRunner>(
    runner: S, parent_id: Seq<char>, r: Result<Vec<Task>>) -> bool {
    exists|j: Result<Json>|
        #[trigger] bd_json(runner, children_args(parent_id), j) && match j {
            Err(e) => r == Err::<Vec<Task>, LoopError>(e),
            Ok(v) => exists|ts: Seq<Task>|
                #[trigger] tasks_from_document(v, ts) && (r matches Ok(cs) && cs@ == open_only(ts)),
        }
}

/// `r` is what claiming the task `id` and then showing it yields.
pub open spec fn bd_claimed_then_shown<S: ShellCommandRunner>(
    runner: S, id: Seq<char>, claim: bool, r: Result<Task>) -> bool {
    exists|c: Result<()>|
        #[trigger] bd_claim_step(runner, id, claim, c) && match c {
            Err(e) => r == Err::<Task, LoopError>(e),
            Ok(_) => bd_show(runner, id, r),
        }
}

/// `r` is `s` as an optional task: the shown task, or its failure.
pub open spec fn shown_as_option(s: Result<Task>, r: Result<Option<Task>>) -> bool {
    match s {
        Err(e) => r == Err::<Option<Task>, LoopError>(e),
        Ok(t) => r == Ok::<Option<Task>, LoopError>(Some(t)),
    }
}

/// `r` holds the tasks of `children`, and of what `bd search` for the
/// candidate's title found under the parent, whose normalized title is the
/// candidate's, sorted by id, one per id; a failed search finds nothing.
pub open spec fn bd_with_search_matches<S: ShellCommandRunner>(
    runner: S,
    parent_id: Seq<char>,
    candidate: SpawnTaskCandidate,
    children: Seq<Task>,
    r: Result<Vec<Task>>,
) -> bool {
    exists|j: Result<Json>, found: Seq<Task>|
        #[trigger] bd_json(runner, search_args(candidate.title@), j) && #[trigger] search_found(j, found)
            && (r matches Ok(v) && sorted_first_of_each_id(
            titled(children, normalized(candidate.title@), None) + titled(
                found,
                normalized(candidate.title@),
                Some(parent_id),
            ),
            v@,
        ))
}

/// `r` is the task `id` as `bd show` prints it, as an optional task.
pub open spec fn bd_shown_task<S: ShellCommandRunner>(
    runner: S, id: Seq<char>, r: Result<Option<Task>>) -> bool {
    exists|s: Result<Task>| #[trigger] bd_show(runner, id, s) && shown_as_option(s, r)
}

/// `r` is the first task that `bd ready` lists, as `bd show` prints it, or
/// none when nothing is ready.
pub open spec fn bd_first_ready<S: ShellCommandRunner>(
    runner: S, r: Result<Option<Task>>) -> bool {
    exists|j: Result<Json>|
        #[trigger] bd_json(runner, ready_args(), j) && match j {
            Err(e) => r == Err::<Option<Task>, LoopError>(e),
            Ok(v) => exists|ts: Seq<Task>|
                #[trigger] tasks_from_document(v, ts) && if ts.len() == 0 {
                    r == Ok::<Option<Task>, LoopError>(None)
                } else {
                    bd_shown_task(runner, ts.last().id@, r)
                },
        }
}

/// `r` is the task picked to work on: the preferred one, else the first ready one.
pub open spec fn bd_picked<S: ShellCommandRunner>(
    runner: S, preferred: Option<Seq<char>>, r: Result<Option<Task>>) -> bool {
    match preferred {
        Some(task_id) => bd_shown_task(runner, task_id, r),
        None => bd_first_ready(runner, r),
    }
}

/// The run is of `bd` with `args`.
pub open spec fn ran_bd(run: ShellRun, args: Seq<Seq<char>>) -> bool {
    run.program == "bd"@ && run.args == args
}

/// The run claims a task: `bd update <id> --claim`.
pub open spec fn claims(run: ShellRun) -> bool {
    run.args.len() == 3 && run.args[0] == "update"@ && run.args[2] == "--claim"@
}

/// `after` is `before` with one run of `bd` with `args` appended.
pub open spec fn one_more_run(before: Seq<ShellRun>, after: Seq<ShellRun>, args: Seq<Seq<char>>) -> bool {
    &&& after == before.push(after.last())
    &&& ran_bd(after.last(), args)
}

proof fn lemma_grew_push(a: Seq<ShellRun>, b: Seq<ShellRun>, x: ShellRun)
    requires
        grew(a, b),
    ensures
        grew(a, b.push(x)),
{
    assert(b.push(x).take(a.len() as int) =~= b.take(a.len() as int));
}

proof fn lemma_grew_refl(a: Seq<ShellRun>)
    ensures
        grew(a, a),
        no_claim_from(a, a.len() as int),
{
    assert(a.take(a.len() as int) =~= a);
}

proof fn lemma_no_claim_push(a: Seq<ShellRun>, x: ShellRun, from: int)
    requires
        no_claim_from(a, from),
        !claims(x),
        0 <= from,
    ensures
        no_claim_from(a.push(x), from),
{
    assert forall|i: int| from <= i < a.push(x).len() implies !claims(#[trigger] a.push(x)[i]) by {
        if i < a.len() {
            assert(a.push(x)[i] == a[i]);
        }
    }
}

/// None of the runs from `from` on claims a task.
pub open spec fn no_claim_from(runs: Seq<ShellRun>, from: int) -> bool {
    forall|i: int| from <= i < runs.len() ==> !claims(#[trigger] runs[i])
}

/// Creating a child runs `bd create` with the candidate under the parent, then,
/// when that printed an id, `bd show` of the id; nothing else.
pub open spec fn child_runs(parent_id: Seq<char>, candidate: SpawnTaskCandidate, runs: Seq<ShellRun>) -> bool {
    &&& runs.len() >= 1
    &&& ran_bd(runs[0], child_args(parent_id, candidate))
    &&& match printed(runs[0]) {
        Some(out) => if trim(out).len() == 0 {
            runs.len() == 1
        } else {
            runs.len() == 2 && ran_bd(runs[1], show_args(trim(out)))
        },
        None => runs.len() == 1,
    }
}

proof fn lemma_show_is_no_claim(id: Seq<char>)
    ensures
        forall|run: ShellRun| ran_bd(run, show_args(id)) ==> !claims(run),
        forall|run: ShellRun| ran_bd(run, ready_args()) ==> !claims(run),
{
    reveal_strlit("show");
    reveal_strlit("update");
    reveal_strlit("ready");
    assert("show"@ != "update"@) by {
        assert("show"@[0] != "update"@[0]);
    }
    assert("ready"@ != "update"@) by {
        assert("ready"@[0] != "update"@[0]);
    }
}

/// Nothing was taken only because nothing was picked, or because the task
/// picked is closed: a task in any other status is never skipped.
pub open spec fn skipped_only_closed<S: ShellCommandRunner>(runner: S, preferred: Option<Seq<char>>) -> bool {
    ||| bd_picked(runner, preferred, Ok::<Option<Task>, LoopError>(None))
    ||| exists|t: Task|
        #[trigger] bd_picked(runner, preferred, Ok::<Option<Task>, LoopError>(Some(t))) && t.status
            == TaskStatus::Closed
}

/// Claiming skips only a closed task: a claim that gives no task had nothing
/// picked or picked a closed one, and a claim that gives a task picked that
/// task, which is not closed, and claimed it when asked to.
pub proof fn lemma_claim_skips_only_closed<S: ShellCommandRunner>(
    tracker: BeadsCli<S>,
    preferred: Option<Seq<char>>,
    claim: bool,
    r: Result<Option<Task>>,
)
    requires
        tracker.claim_gives(preferred, claim, r),
    ensures
        r matches Ok(None) ==> skipped_only_closed(tracker.runner(), preferred),
        r matches Ok(Some(t)) ==> {
            &&& t.status != TaskStatus::Closed
            &&& bd_picked(tracker.runner(), preferred, Ok::<Option<Task>, LoopError>(Some(t)))
            &&& bd_claim_step(tracker.runner(), t.id@, claim, Ok::<(), LoopError>(()))
        },
{
    let x = choose|x: Result<Option<Task>>|
        #[trigger] bd_picked(tracker.runner(), preferred, x) && match x {
            Err(e) => r == Err::<Option<Task>, LoopError>(e),
            Ok(None) => r == Ok::<Option<Task>, LoopError>(None),
            Ok(Some(task)) => if task.status == TaskStatus::Closed {
                r == Ok::<Option<Task>, LoopError>(None)
            } else {
                exists|c: Result<()>|
                    #[trigger] bd_claim_step(tracker.runner(), task.id@, claim, c) && match c {
                        Err(e) => r == Err::<Option<Task>, LoopError>(e),
                        Ok(_) => r == Ok::<Option<Task>, LoopError>(Some(task)),
                    }
            },
        };
    if let Ok(Some(task)) = x {
        if task.status != TaskStatus::Closed {
            let c = choose|c: Result<()>|
                #[trigger] bd_claim_step(tracker.runner(), task.id@, claim, c) && match c {
                    Err(e) => r == Err::<Option<Task>, LoopError>(e),
                    Ok(_) => r == Ok::<Option<Task>, LoopError>(Some(task)),
                };
            if c is Ok {
                assert(c == Ok::<(), LoopError>(()));
            }
        }
    }
}

/// `a` is `b` but for the commands it has run.
pub open spec fn same_tracker<S: ShellCommandRunner>(a: BeadsCli<S>, b: BeadsCli<S>) -> bool {
    &&& a.runner() == b.runner()
    &&& a.prefix() == b.prefix()
    &&& a.log() == b.log()
}

impl<S: ShellCommandRunner> BeadsCli<S> {
    /// The prefix that a new tracker is initialized with.
    pub closed spec fn prefix(&self) -> Seq<char> {
        self.default_prefix@
    }

    pub fn new(shell: Box<S>, default_prefix: &str) -> (r: Self)
        ensures
            r.prefix() == default_prefix@,
            r.runner() == *shell,
            r.log() == Seq::<BeadsCall>::empty(),
            r.commands() == Seq::<ShellRun>::empty(),
    {
        BeadsCli { shell, default_prefix: String::from_str(default_prefix), calls: Ghost(Seq::empty()), runs: Ghost(Seq::empty()) }
    }

    /// The shell that `bd` is run through.
    pub closed spec fn runner(&self) -> S {
        *self.shell
    }

    /// `r` is what running `bd` with `args` and checking its exit yields.
    pub open spec fn checked(&self, args: Seq<Seq<char>>, r: Result<String>) -> bool {
        bd_checked(self.runner(), args, r)
    }

    /// `r` is what running `bd` with `args` and decoding its output as JSON yields.
    pub open spec fn json(&self, args: Seq<Seq<char>>, r: Result<Json>) -> bool {
        bd_json(self.runner(), args, r)
    }

    /// `r` is the task `id` as `bd show` prints it: the last task of the listing.
    pub open spec fn show(&self, id: Seq<char>, r: Result<Task>) -> bool {
        bd_show(self.runner(), id, r)
    }

    /// `r` is what claiming `id` yields: nothing to do unless `claim` is set,
    /// else `bd update id --claim`.
    pub open spec fn claim_step(&self, id: Seq<char>, claim: bool, r: Result<()>) -> bool {
        bd_claim_step(self.runner(), id, claim, r)
    }

    /// `r` is the open children of `parent_id` as `bd children` lists them.
    pub open spec fn open_children(&self, parent_id: Seq<char>, r: Result<Vec<Task>>) -> bool {
        bd_open_children(self.runner(), parent_id, r)
    }

    /// `r` is what claiming the task `id` and then showing it yields.
    pub open spec fn claimed_then_shown(&self, id: Seq<char>, claim: bool, r: Result<Task>) -> bool {
        bd_claimed_then_shown(self.runner(), id, claim, r)
    }


    /// `r` holds the tasks of `children`, and of what `bd search` for the
    /// candidate's title found under the parent, whose normalized title is the
    /// candidate's, sorted by id, one per id; a failed search finds nothing.
    pub open spec fn with_search_matches(
        &self,
        parent_id: Seq<char>,
        candidate: SpawnTaskCandidate,
        children: Seq<Task>,
        r: Result<Vec<Task>>,
    ) -> bool {
        bd_with_search_matches(self.runner(), parent_id, candidate, children, r)
    }

    /// `r` is the task `id` as `bd show` prints it, as an optional task.
    pub open spec fn shown_task(&self, id: Seq<char>, r: Result<Option<Task>>) -> bool {
        bd_shown_task(self.runner(), id, r)
    }

    /// `r` is the first task that `bd ready` lists, as `bd show` prints it, or
    /// none when nothing is ready.
    pub open spec fn first_ready(&self, r: Result<Option<Task>>) -> bool {
        bd_first_ready(self.runner(), r)
    }

    /// `r` is the task picked to work on: the preferred one, else the first ready one.
    pub open spec fn picked(&self, preferred: Option<Seq<char>>, r: Result<Option<Task>>) -> bool {
        bd_picked(self.runner(), preferred, r)
    }

    /// The task to work on: the preferred one, or else the first ready one.
    fn pick_task(&mut self, preferred_task: Option<&str>) -> (r: Result<Option<Task>>)
        ensures
            old(self).picked(opt_str_view(preferred_task), r),
            same_tracker(*final(self), *old(self)),
            grew(old(self).commands(), final(self).commands()),
            no_claim_from(final(self).commands(), old(self).commands().len() as int),
    {
        let ghost c0 = self.commands();
        proof {
            lemma_grew_refl(c0);
        }
        match preferred_task {
            Some(task_id) => {
                let s = self.show_task(task_id);
                proof {
                    lemma_show_is_no_claim(task_id@);
                    lemma_grew_push(c0, c0, self.commands().last());
                    lemma_no_claim_push(c0, self.commands().last(), c0.len() as int);
                }
                let ghost given = s;
                let r = match s {
                    Ok(t) => Ok(Some(t)),
                    Err(e) => Err(e),
                };
                assert(self.show(task_id@, given));
                assert(shown_as_option(given, r));
                assert(self.shown_task(task_id@, r));
                r
            },
            None => {
                let args = ["ready", "--json", "--limit", "1"];
                let j = self.run_json(&args);
                let ghost given = j;
                let ghost c1 = self.commands();
                proof {
                    assert(arg_views(args@) =~= ready_args());
                    assert(self.json(ready_args(), given));
                    lemma_show_is_no_claim(Seq::empty());
                    lemma_grew_push(c0, c0, c1.last());
                    lemma_no_claim_push(c0, c1.last(), c0.len() as int);
                }
                let value = match j {
                    Ok(v) => v,
                    Err(e) => return Err(e),
                };
                let mut tasks = parse_tasks(&value);
                let ghost ts = tasks@;
                assert(tasks_from_document(value, ts));
                match tasks.pop() {
                    Some(t) => {
                        let s = self.show_task(t.id.as_str());
                        proof {
                            lemma_show_is_no_claim(t.id@);
                            lemma_grew_push(c0, c1, self.commands().last());
                            lemma_no_claim_push(c1, self.commands().last(), c0.len() as int);
                        }
                        let ghost shown = s;
                        let r = match s {
                            Ok(t) => Ok(Some(t)),
                            Err(e) => Err(e),
                        };
                        assert(self.show(ts.last().id@, shown));
                        assert(shown_as_option(shown, r));
                        assert(self.shown_task(ts.last().id@, r));
                        assert(self.first_ready(r));
                        r
                    },
                    None => {
                        assert(self.first_ready(Ok(None)));
                        Ok(None)
                    },
                }
            },
        }
    }

    /// Claims a task when `claim` is set.
    fn claim(&mut self, task_id: &str, claim: bool) -> (r: Result<()>)
        ensures
            old(self).claim_step(task_id@, claim, r),
            same_tracker(*final(self), *old(self)),
            !claim ==> final(self).commands() == old(self).commands(),
            claim ==> one_more_run(old(self).commands(), final(self).commands(), claim_args(task_id@)),
    {
        if !claim {
            return Ok(());
        }
        let args = ["update", task_id, "--claim"];
        let s = self.run_checked(&args);
        proof {
            assert(arg_views(args@) =~= claim_args(task_id@));
        }
        match s {
            Ok(_) => Ok(()),
            Err(e) => Err(e),
        }
    }

    /// The commands this client has run, in order, with what each yielded.
    pub closed spec fn commands(&self) -> Seq<ShellRun> {
        self.runs@
    }

    /// Runs `bd` through the shell and records the run.
    fn run_bd(&mut self, args: &[&str]) -> (r: Result<CommandOutput>)
        ensures
            old(self).runner().may_give("bd"@, arg_views(args@), r),
            final(self).commands() == old(self).commands().push(
                (ShellRun { program: "bd"@, args: arg_views(args@), result: r }),
            ),
            one_more_run(old(self).commands(), final(self).commands(), arg_views(args@)),
            final(self).commands().last().result == r,
            same_tracker(*final(self), *old(self)),
    {
        let r = self.shell.run("bd", args);
        self.runs = Ghost(self.runs@.push(ShellRun { program: "bd"@, args: arg_views(args@), result: r }));
        r
    }

    /// Runs `bd` and yields what it printed, or the failure.
    fn run_checked(&mut self, args: &[&str]) -> (r: Result<String>)
        ensures
            old(self).checked(arg_views(args@), r),
            same_tracker(*final(self), *old(self)),
            one_more_run(old(self).commands(), final(self).commands(), arg_views(args@)),
            checked_from("bd"@, arg_views(args@), final(self).commands().last().result, r),
    {
        let out = self.run_bd(args);
        let ghost given = out;
        let r = match out {
            Ok(o) => check_output("bd", args, o),
            Err(e) => Err(e),
        };
        proof {
            assert(self.runner().may_give("bd"@, arg_views(args@), given));
        }
        r
    }

    /// Runs `bd` and decodes what it printed as JSON.
    fn run_json(&mut self, args: &[&str]) -> (r: Result<Json>)
        ensures
            old(self).json(arg_views(args@), r),
            same_tracker(*final(self), *old(self)),
            one_more_run(old(self).commands(), final(self).commands(), arg_views(args@)),
    {
        let s = self.run_checked(args);
        let ghost given = s;
        let r = match s {
            Err(e) => Err(e),
            Ok(stdout) => match decode_json_output(stdout.as_str()) {
                Ok(v) => Ok(v),
                Err(_) => Err(
                    LoopError::InvalidJson {
                        program: String::from_str("bd"),
                        args: join_strs(args, " "),
                    },
                ),
            },
        };
        proof {
            assert(self.checked(arg_views(args@), given));
        }
        r
    }

    /// The task `task_id` as `bd show` prints it.
    fn show_task(&mut self, task_id: &str) -> (r: Result<Task>)
        ensures
            old(self).show(task_id@, r),
            same_tracker(*final(self), *old(self)),
            one_more_run(old(self).commands(), final(self).commands(), show_args(task_id@)),
    {
        let args = ["show", task_id, "--json"];
        let j = self.run_json(&args);
        proof {
            assert(arg_views(args@) =~= show_args(task_id@));
        }
        let ghost given = j;
        match j {
            Err(e) => {
                assert(self.json(show_args(task_id@), given));
                Err(e)
            },
            Ok(value) => {
                let tasks = parse_tasks(&value);
                let ghost ts = tasks@;
                let r = last_task(tasks, task_id);
                assert(tasks_from_document(value, ts));
                assert(self.json(show_args(task_id@), given));
                r
            },
        }
    }

    /// The children of a task that are not closed.
    pub fn list_open_children(&mut self, parent_id: &str) -> (r: Result<Vec<Task>>)
        ensures
            old(self).open_children(parent_id@, r),
            r matches Ok(v) ==> all_open(v@),
            same_tracker(*final(self), *old(self)),
    {
        let args = ["children", parent_id, "--json"];
        let j = self.run_json(&args);
        proof {
            assert(arg_views(args@) =~= children_args(parent_id@));
        }
        let ghost given = j;
        match j {
            Err(e) => {
                assert(self.json(children_args(parent_id@), given));
                Err(e)
            },
            Ok(value) => {
                let tasks = parse_tasks(&value);
                let ghost ts = tasks@;
                let v = keep_open(tasks);
                proof {
                    broadcast use vstd::seq_lib::group_filter_ensures;

                    assert(tasks_from_document(value, ts));
                    assert(self.json(children_args(parent_id@), given));
                }
                Ok(v)
            },
        }
    }
}

impl<S: ShellCommandRunner> BeadsClient for BeadsCli<S> {
    /// `bd where` succeeds, or else `bd init` with the prefix is run.
    open spec fn initialized_gives(&self, r: Result<()>) -> bool {
        exists|probe: Result<CommandOutput>|
            #[trigger] self.runner().may_give("bd"@, where_args(), probe) && match probe {
                Err(e) => r == Err::<(), LoopError>(e),
                Ok(o) => if o.exit_code == 0 {
                    r == Ok::<(), LoopError>(())
                } else {
                    exists|s: Result<String>|
                        #[trigger] bd_checked(self.runner(), init_args(self.prefix()), s) && unit_of(s, r)
                },
            }
    }

    /// `bd sync --flush-only`.
    open spec fn sync_gives(&self, r: Result<()>) -> bool {
        exists|s: Result<String>| #[trigger] bd_checked(self.runner(), sync_args(), s) && unit_of(s, r)
    }

    /// `bd create` with the candidate under the parent, then the created task.
    open spec fn child_gives(
        &self,
        parent_id: Seq<char>,
        candidate: SpawnTaskCandidate,
        r: Result<Task>,
    ) -> bool {
        exists|s: Result<String>|
            #[trigger] bd_checked(self.runner(), child_args(parent_id, candidate), s) && match s {
                Err(e) => r == Err::<Task, LoopError>(e),
                Ok(out) => if trim(out@).len() == 0 {
                    r == Err::<Task, LoopError>(LoopError::MissingIssueId { bootstrap: false })
                } else {
                    bd_show(self.runner(), trim(out@), r)
                },
            }
    }

    /// `bd dep child --blocks parent`.
    open spec fn dependency_gives(&self, child_id: Seq<char>, parent_id: Seq<char>, r: Result<()>) -> bool {
        exists|s: Result<String>|
            #[trigger] bd_checked(self.runner(), dep_args(child_id, parent_id), s) && unit_of(s, r)
    }

    /// `bd update id --notes notes`.
    open spec fn notes_give(&self, task_id: Seq<char>, notes: Seq<char>, r: Result<()>) -> bool {
        exists|s: Result<String>|
            #[trigger] bd_checked(self.runner(), notes_args(task_id, notes), s) && unit_of(s, r)
    }

    /// Nothing for a blank goal; else `bd create` of the bootstrap task for
    /// the trimmed goal, a claim of it, and the created task.
    open spec fn bootstrap_gives(&self, goal: Seq<char>, claim: bool, r: Result<Task>) -> bool {
        if trim(goal).len() == 0 {
            r == Err::<Task, LoopError>(LoopError::EmptyBootstrapGoal)
        } else {
            exists|s: Result<String>|
                #[trigger] bd_checked(self.runner(), bootstrap_args(trim(goal)), s) && match s {
                    Err(e) => r == Err::<Task, LoopError>(e),
                    Ok(out) => if trim(out@).len() == 0 {
                        r == Err::<Task, LoopError>(LoopError::MissingIssueId { bootstrap: true })
                    } else {
                        bd_claimed_then_shown(self.runner(), trim(out@), claim, r)
                    },
                }
        }
    }

    /// The preferred task, or else the first ready one, claimed unless closed.
    open spec fn claim_gives(
        &self,
        preferred: Option<Seq<char>>,
        claim: bool,
        r: Result<Option<Task>>,
    ) -> bool {
        exists|t: Result<Option<Task>>|
            #[trigger] bd_picked(self.runner(), preferred, t) && match t {
                Err(e) => r == Err::<Option<Task>, LoopError>(e),
                Ok(None) => r == Ok::<Option<Task>, LoopError>(None),
                Ok(Some(task)) => if task.status == TaskStatus::Closed {
                    r == Ok::<Option<Task>, LoopError>(None)
                } else {
                    exists|c: Result<()>|
                        #[trigger] bd_claim_step(self.runner(), task.id@, claim, c) && match c {
                            Err(e) => r == Err::<Option<Task>, LoopError>(e),
                            Ok(_) => r == Ok::<Option<Task>, LoopError>(Some(task)),
                        }
                },
            }
    }

    /// Open children of the parent, and open search matches under the parent,
    /// whose normalized title is the candidate's, sorted by id, one per id; a
    /// failed search finds nothing.
    open spec fn duplicates_give(
        &self,
        parent_id: Seq<char>,
        candidate: SpawnTaskCandidate,
        r: Result<Vec<Task>>,
    ) -> bool {
        exists|ch: Result<Vec<Task>>|
            #[trigger] bd_open_children(self.runner(), parent_id, ch) && match ch {
                Err(e) => r == Err::<Vec<Task>, LoopError>(e),
                Ok(cs) => bd_with_search_matches(self.runner(), parent_id, candidate, cs@, r),
            }
    }

    closed spec fn log(&self) -> Seq<BeadsCall> {
        self.calls@
    }

    fn ensure_initialized(&mut self) -> (r: Result<()>) {
        let r = self.initialize();
        self.calls = Ghost(self.calls@.push(BeadsCall::Init { result: r }));
        r
    }

    fn create_bootstrap_parent_task(&mut self, goal: &str, claim: bool) -> (r: Result<Task>)
        ensures
            crate::text::is_blank(goal@) ==> r matches Err(LoopError::EmptyBootstrapGoal),
            crate::text::is_blank(goal@) ==> final(self).commands() == old(self).commands(),
    {
        let r = self.bootstrap(goal, claim);
        self.calls = Ghost(self.calls@.push(BeadsCall::Bootstrap { goal: goal@, claim, result: r }));
        r
    }

    fn claim_parent_task(&mut self, preferred_task: Option<&str>, claim: bool) -> (r: Result<
        Option<Task>,
    >)
        ensures
            r matches Ok(Some(t)) ==> t.status != TaskStatus::Closed,
            r matches Ok(None) ==> skipped_only_closed(
                old(self).runner(),
                opt_str_view(preferred_task),
            ),
            grew(old(self).commands(), final(self).commands()),
            (!claim || r matches Ok(None)) ==> no_claim_from(
                final(self).commands(),
                old(self).commands().len() as int,
            ),
            claim ==> (r matches Ok(Some(t)) ==> {
                &&& final(self).commands().len() > old(self).commands().len()
                &&& ran_bd(final(self).commands().last(), claim_args(t.id@))
                &&& no_claim_from(final(self).commands().drop_last(), old(self).commands().len() as int)
            }),
    {
        let r = self.take_task(preferred_task, claim);
        self.calls = Ghost(
            self.calls@.push(
                BeadsCall::Claim { preferred: opt_str_view(preferred_task), claim, result: r },
            ),
        );
        r
    }

    fn sync(&mut self) -> (r: Result<()>) {
        let r = self.flush();
        self.calls = Ghost(self.calls@.push(BeadsCall::Sync { result: r }));
        r
    }

    fn search_duplicates(&mut self, parent_id: &str, candidate: &SpawnTaskCandidate) -> (r: Result<
        Vec<Task>,
    >)
        ensures
            r matches Ok(v) ==> all_titled(v@, normalized(candidate.title@)) && ascending_ids(v@),
    {
        let r = self.find_duplicates(parent_id, candidate);
        self.calls = Ghost(
            self.calls@.push(
                BeadsCall::Duplicates { parent_id: parent_id@, candidate: *candidate, result: r },
            ),
        );
        r
    }

    fn create_child_task(&mut self, parent_id: &str, candidate: &SpawnTaskCandidate) -> (r: Result<
        Task,
    >)
        ensures
            grew(old(self).commands(), final(self).commands()),
            child_runs(parent_id@, *candidate, appended(old(self).commands(), final(self).commands())),
    {
        let r = self.create_child(parent_id, candidate);
        self.calls = Ghost(
            self.calls@.push(
                BeadsCall::Child { parent_id: parent_id@, candidate: *candidate, result: r },
            ),
        );
        r
    }

    fn add_blocking_dependency(&mut self, child_id: &str, parent_id: &str) -> (r: Result<()>) {
        let r = self.block_parent(child_id, parent_id);
        self.calls = Ghost(
            self.calls@.push(
                BeadsCall::Dependency { child_id: child_id@, parent_id: parent_id@, result: r },
            ),
        );
        r
    }

    fn add_notes(&mut self, task_id: &str, notes: &str) -> (r: Result<()>) {
        let r = self.note(task_id, notes);
        self.calls = Ghost(
            self.calls@.push(BeadsCall::Notes { task_id: task_id@, notes: notes@, result: r }),
        );
        r
    }
}

impl<S: ShellCommandRunner> BeadsCli<S> {

    fn initialize(&mut self) -> (r: Result<()>)
        ensures
            old(self).initialized_gives(r),
            same_tracker(*final(self), *old(self)),
    {
        let probe = ["where"];
        let out = self.run_bd(&probe);
        let ghost given = out;
        proof {
            assert(arg_views(probe@) =~= where_args());
            assert(self.runner().may_give("bd"@, where_args(), given));
        }
        let check = match out {
            Ok(o) => o,
            Err(e) => return Err(e),
        };
        if check.success() {
            return Ok(());
        }
        let prefix = self.default_prefix.clone();
        let args = ["init", "--prefix", prefix.as_str()];
        let s = self.run_checked(&args);
        proof {
            assert(arg_views(args@) =~= init_args(self.prefix()));
            assert(self.checked(init_args(self.prefix()), s));
        }
        match s {
            Ok(_) => Ok(()),
            Err(e) => Err(e),
        }
    }

    fn bootstrap(&mut self, goal: &str, claim: bool) -> (r: Result<Task>)
        ensures
            old(self).bootstrap_gives(goal@, claim, r),
            crate::text::is_blank(goal@) ==> r matches Err(LoopError::EmptyBootstrapGoal),
            same_tracker(*final(self), *old(self)),
            crate::text::is_blank(goal@) ==> final(self).commands() == old(self).commands(),
    {
        let goal = trim_str(goal);
        if goal.as_str().is_empty() {
            return Err(LoopError::EmptyBootstrapGoal);
        }
        let title = make_bootstrap_title(goal.as_str());
        let description = make_bootstrap_description(goal.as_str());
        let args = [
            "create",
            "--title",
            title.as_str(),
            "--description",
            description.as_str(),
            "--type",
            "feature",
            "--priority",
            "2",
            "--labels",
            "loop:bootstrap",
            "--silent",
        ];
        let s = self.run_checked(&args);
        proof {
            assert(arg_views(args@) =~= bootstrap_args(goal@));
            assert(self.checked(bootstrap_args(goal@), s));
        }
        let out = match s {
            Ok(out) => out,
            Err(e) => return Err(e),
        };
        let id = trim_str(out.as_str());
        if id.as_str().is_empty() {
            return Err(LoopError::MissingIssueId { bootstrap: true });
        }
        let c = self.claim(id.as_str(), claim);
        proof {
            assert(self.claim_step(id@, claim, c));
        }
        match c {
            Ok(_) => {},
            Err(e) => return Err(e),
        }
        self.show_task(id.as_str())
    }

    fn take_task(&mut self, preferred_task: Option<&str>, claim: bool) -> (r: Result<Option<Task>>)
        ensures
            old(self).claim_gives(opt_str_view(preferred_task), claim, r),
            r matches Ok(None) ==> skipped_only_closed(
                old(self).runner(),
                opt_str_view(preferred_task),
            ),
            r matches Ok(Some(t)) ==> bd_picked(
                old(self).runner(),
                opt_str_view(preferred_task),
                Ok::<Option<Task>, LoopError>(Some(t)),
            ) && bd_claim_step(old(self).runner(), t.id@, claim, Ok::<(), LoopError>(())),
            r matches Ok(Some(t)) ==> t.status != TaskStatus::Closed,
            same_tracker(*final(self), *old(self)),
            grew(old(self).commands(), final(self).commands()),
            (!claim || r matches Ok(None)) ==> no_claim_from(
                final(self).commands(),
                old(self).commands().len() as int,
            ),
            claim ==> (r matches Ok(Some(t)) ==> {
                &&& final(self).commands().len() > old(self).commands().len()
                &&& ran_bd(final(self).commands().last(), claim_args(t.id@))
                &&& no_claim_from(final(self).commands().drop_last(), old(self).commands().len() as int)
            }),
    {
        let picked = self.pick_task(preferred_task);
        let ghost given = picked;
        proof {
            assert(self.picked(opt_str_view(preferred_task), given));
        }
        let task = match picked {
            Err(e) => return Err(e),
            Ok(None) => return Ok(None),
            Ok(Some(task)) => task,
        };
        if !task.is_open() {
            assert(bd_picked(self.runner(), opt_str_view(preferred_task), Ok(Some(task))));
            return Ok(None);
        }
        let ghost c1 = self.commands();
        let c = self.claim(task.id.as_str(), claim);
        proof {
            assert(self.claim_step(task.id@, claim, c));
            if claim {
                lemma_grew_push(old(self).commands(), c1, self.commands().last());
                assert(self.commands().drop_last() =~= c1);
            }
        }
        match c {
            Ok(_) => Ok(Some(task)),
            Err(e) => Err(e),
        }
    }

    fn flush(&mut self) -> (r: Result<()>)
        ensures
            old(self).sync_gives(r),
            same_tracker(*final(self), *old(self)),
    {
        let args = ["sync", "--flush-only"];
        let s = self.run_checked(&args);
        proof {
            assert(arg_views(args@) =~= sync_args());
            assert(self.checked(sync_args(), s));
        }
        match s {
            Ok(_) => Ok(()),
            Err(e) => Err(e),
        }
    }

    /// Open children of the parent and open tracker matches under the parent
    /// whose normalized title is the candidate's, sorted by id, one per id; a
    /// failed search contributes nothing.
    fn find_duplicates(&mut self, parent_id: &str, candidate: &SpawnTaskCandidate) -> (r: Result<
        Vec<Task>,
    >)
        ensures
            old(self).duplicates_give(parent_id@, *candidate, r),
            r matches Ok(v) ==> all_titled(v@, normalized(candidate.title@)) && ascending_ids(v@),
            same_tracker(*final(self), *old(self)),
    {
        let target = candidate.normalized_title();
        let ch = self.list_open_children(parent_id);
        let ghost listed = ch;
        proof {
            assert(self.open_children(parent_id@, listed));
        }
        let children = match ch {
            Ok(children) => children,
            Err(e) => return Err(e),
        };
        let ghost cs = children@;
        let from_children = keep_titled(children, &target, None);
        let args = [
            "search",
            "--query",
            candidate.title.as_str(),
            "--status",
            "open",
            "--limit",
            "20",
            "--json",
        ];
        let j = self.run_json(&args);
        let ghost searched = j;
        let ghost mut found: Seq<Task> = Seq::empty();
        proof {
            assert(arg_views(args@) =~= search_args(candidate.title@));
            assert(self.json(search_args(candidate.title@), searched));
        }
        let mut from_search = match j {
            Ok(value) => {
                let tasks = parse_tasks(&value);
                proof {
                    found = tasks@;
                    lemma_titled_all(found, target@, Some(parent_id@));
                }
                keep_titled(tasks, &target, Some(parent_id))
            },
            Err(_) => Vec::new(),
        };
        proof {
            assert(search_found(searched, found));
            assert(from_search@ =~= titled(found, target@, Some(parent_id@)));
            lemma_titled_all(cs, target@, None);
        }
        let ghost a = from_children@;
        let ghost b = from_search@;
        let mut merged = from_children;
        merged.append(&mut from_search);
        proof {
            lemma_titled_all_parts(a, b, target@);
        }
        let v = sort_dedup_by_id(merged);
        proof {
            lemma_dedup_titled(a + b, v@, target@);
            assert(self.with_search_matches(parent_id@, *candidate, cs, Ok(v)));
        }
        Ok(v)
    }

    fn create_child(&mut self, parent_id: &str, candidate: &SpawnTaskCandidate) -> (r: Result<Task>)
        ensures
            old(self).child_gives(parent_id@, *candidate, r),
            same_tracker(*final(self), *old(self)),
            grew(old(self).commands(), final(self).commands()),
            child_runs(parent_id@, *candidate, appended(old(self).commands(), final(self).commands())),
    {
        let labels = join_strings(&candidate_labels(candidate), ",");
        let priority = child_priority(candidate.priority);
        let args = [
            "create",
            "--title",
            candidate.title.as_str(),
            "--description",
            candidate.description.as_str(),
            "--type",
            "task",
            "--parent",
            parent_id,
            "--priority",
            priority.as_str(),
            "--labels",
            labels.as_str(),
            "--silent",
        ];
        let ghost c0 = self.commands();
        let s = self.run_checked(&args);
        let ghost c1 = self.commands();
        proof {
            assert(arg_views(args@) =~= child_args(parent_id@, *candidate));
            assert(self.checked(child_args(parent_id@, *candidate), s));
            lemma_grew_refl(c0);
            lemma_grew_push(c0, c0, c1.last());
            assert(appended(c0, c1) =~= seq![c1.last()]);
        }
        let out = match s {
            Ok(out) => out,
            Err(e) => return Err(e),
        };
        let id = trim_str(out.as_str());
        if id.as_str().is_empty() {
            return Err(LoopError::MissingIssueId { bootstrap: false });
        }
        let r = self.show_task(id.as_str());
        proof {
            lemma_grew_push(c0, c1, self.commands().last());
            assert(appended(c0, self.commands()) =~= seq![c1.last(), self.commands().last()]);
        }
        r
    }

    fn block_parent(&mut self, child_id: &str, parent_id: &str) -> (r: Result<()>)
        ensures
            old(self).dependency_gives(child_id@, parent_id@, r),
            same_tracker(*final(self), *old(self)),
    {
        let args = ["dep", child_id, "--blocks", parent_id];
        let s = self.run_checked(&args);
        proof {
            assert(arg_views(args@) =~= dep_args(child_id@, parent_id@));
            assert(self.checked(dep_args(child_id@, parent_id@), s));
        }
        match s {
            Ok(_) => Ok(()),
            Err(e) => Err(e),
        }
    }

    fn note(&mut self, task_id: &str, notes: &str) -> (r: Result<()>)
        ensures
            old(self).notes_give(task_id@, notes@, r),
            same_tracker(*final(self), *old(self)),
    {
        let args = ["update", task_id, "--notes", notes];
        let s = self.run_checked(&args);
        proof {
            assert(arg_views(args@) =~= notes_args(task_id@, notes@));
            assert(self.checked(notes_args(task_id@, notes@), s));
        }
        match s {
            Ok(_) => Ok(()),
            Err(e) => Err(e),
        }
    }
}

} // verus!
