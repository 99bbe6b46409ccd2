//! The configuration of an imported space.

use vstd::prelude::*;
use yrs::In;

use crate::export::types::{
    ExportCycle, ExportMilestoneDef, ExportMilestones, ExportTeam, ExportUser, SpaceExport,
};
use crate::import::items::Surroundings;
use crate::str_map::StrMap;
use crate::template::config::{self, put, put_flag, put_opt, put_str, FilterPolicy};
use crate::template::instantiator;
use crate::text;
use crate::ydoc::{self, YTree};

verus! {

// ---------------------------------------------------------------------------
// Milestones
// ---------------------------------------------------------------------------

/// A milestone with its deadline and its state.
pub open spec fn milestone_tree(d: ExportMilestoneDef) -> YTree {
    let m = Map::empty().insert("id"@, ydoc::ystr(d.id@)).insert("name"@, ydoc::ystr(d.name@));
    let m = config::with_opt(m, "description"@, text::opt_text(d.description));
    let m = config::with_opt(m, "deadline"@, text::opt_text(d.deadline));
    YTree::Dict(config::with_flag(m, "deprecated"@, d.deprecated))
}

/// The milestones that stand in the order, by id.
pub open spec fn milestone_trees(
    order: Seq<String>,
    defs: Map<Seq<char>, ExportMilestoneDef>,
) -> Map<Seq<char>, YTree>
    decreases order.len(),
{
    if order.len() == 0 {
        Map::empty()
    } else {
        let rest = milestone_trees(order.drop_last(), defs);
        let k = order.last()@;
        if defs.contains_key(k) {
            rest.insert(defs[k].id@, milestone_tree(defs[k]))
        } else {
            rest
        }
    }
}

/// The ids of the milestones that stand in the order.
pub open spec fn milestone_ids(
    order: Seq<String>,
    defs: Map<Seq<char>, ExportMilestoneDef>,
) -> Seq<YTree>
    decreases order.len(),
{
    if order.len() == 0 {
        seq![]
    } else {
        let rest = milestone_ids(order.drop_last(), defs);
        let k = order.last()@;
        if defs.contains_key(k) {
            rest.push(ydoc::ystr(defs[k].id@))
        } else {
            rest
        }
    }
}

/// The configuration with the milestones.
pub open spec fn with_milestones(config: Map<Seq<char>, YTree>, m: ExportMilestones) -> Map<
    Seq<char>,
    YTree,
> {
    config.insert(
        "milestones"@,
        YTree::Dict(milestone_trees(m.order@, m.definitions@)),
    ).insert("milestones_order"@, YTree::List(milestone_ids(m.order@, m.definitions@)))
}

/// Adds the milestones, with absolute deadlines. Deprecated ones keep their state.
fn build_milestones_absolute(config: &mut Vec<(String, In)>, m: &ExportMilestones)
    ensures
        ydoc::entries_tree(final(config)@) == with_milestones(ydoc::entries_tree(old(config)@), *m),
{
    let ghost order = m.order@;
    let mut defs: Vec<(String, In)> = Vec::new();
    let mut ids: Vec<In> = Vec::new();
    let mut i: usize = 0;
    assert(order.take(0) =~= seq![]);
    assert(ydoc::ins_tree(ids@) =~= seq![]);
    while i < m.order.len()
        invariant
            i <= order.len(),
            order == m.order@,
            ydoc::entries_tree(defs@) == milestone_trees(order.take(i as int), m.definitions@),
            ydoc::ins_tree(ids@) == milestone_ids(order.take(i as int), m.definitions@),
        decreases order.len() - i,
    {
        let ghost before = ids@;
        assert(order.take(i + 1).drop_last() =~= order.take(i as int));
        if let Some(d) = m.definitions.get(m.order[i].as_str()) {
            let mut e: Vec<(String, In)> = Vec::new();
            put_str(&mut e, "id", d.id.as_str());
            put_str(&mut e, "name", d.name.as_str());
            put_opt(&mut e, "description", &d.description);
            put_opt(&mut e, "deadline", &d.deadline);
            put_flag(&mut e, "deprecated", d.deprecated);
            put(&mut defs, d.id.as_str(), ydoc::in_dict(e));
            ids.push(ydoc::in_str(d.id.as_str()));
            assert(ydoc::ins_tree(ids@) =~= ydoc::ins_tree(before).push(ydoc::ystr(d.id@)));
        }
        i = i + 1;
    }
    assert(order.take(order.len() as int) =~= order);
    put(config, "milestones", ydoc::in_dict(defs));
    put(config, "milestones_order", ydoc::in_list(ids));
}

// ---------------------------------------------------------------------------
// Cycles
// ---------------------------------------------------------------------------

/// The digits at the end of a text.
pub open spec fn digit_tail(s: Seq<char>) -> Seq<char>
    decreases s.len(),
{
    if s.len() == 0 || !text::is_digit(s.last()) {
        seq![]
    } else {
        digit_tail(s.drop_last()).push(s.last())
    }
}

/// The number at the end of a name, where there is one that an `i64` can hold.
pub open spec fn trailing_number_of(name: Seq<char>) -> Option<int> {
    let digits = digit_tail(name);
    if digits.len() == 0 {
        None
    } else {
        text::parse_int_of(digits, i64::MIN as int, i64::MAX as int)
    }
}

/// The number at the end of a cycle's name (12 for `Sprint 12`), if there is one.
pub fn trailing_number(name: &str) -> (r: Option<i64>)
    ensures
        text::opt_i64(r) == trailing_number_of(name@),
{
    let chars = text::to_chars(name);
    let ghost all = chars@;
    let len: usize = chars.len();
    let mut start: usize = len;
    assert(all.take(len as int) =~= all);
    assert(digit_tail(all) =~= digit_tail(all) + all.skip(len as int));
    while start > 0 && text::char_is_digit(chars[start - 1])
        invariant
            start <= len,
            all == chars@,
            len == all.len(),
            digit_tail(all) == digit_tail(all.take(start as int)) + all.skip(start as int),
        decreases start,
    {
        proof {
            let s = start as int;
            assert(all.take(s).drop_last() =~= all.take(s - 1));
            assert(digit_tail(all.take(s)) + all.skip(s) =~= digit_tail(all.take(s - 1))
                + all.skip(s - 1));
        }
        start = start - 1;
    }
    assert(digit_tail(all.take(start as int)) =~= seq![]);
    assert(digit_tail(all) =~= all.skip(start as int));
    if start == len {
        None
    } else {
        assert(all.skip(start as int) =~= all.subrange(start as int, len as int));
        text::parse_i64(vstd::slice::slice_subrange(chars.as_slice(), start, len))
    }
}

/// The greatest of the numbers at the ends of the names.
pub open spec fn max_trailing(v: Seq<ExportCycle>) -> Option<int>
    decreases v.len(),
{
    if v.len() == 0 {
        None
    } else {
        match (max_trailing(v.drop_last()), trailing_number_of(v.last().name@)) {
            (Some(a), Some(b)) => Some(
                if a <= b {
                    b
                } else {
                    a
                },
            ),
            (Some(a), None) => Some(a),
            (None, b) => b,
        }
    }
}

/// The number of the next cycle: past the greatest number that the names hold, or
/// past the count where no name holds any.
pub open spec fn next_number_of(v: Seq<ExportCycle>) -> int {
    match max_trailing(v) {
        Some(n) => n + 1,
        None => v.len() as int + 1,
    }
}

/// The number of the next cycle is past that of every cycle that has one.
pub proof fn lemma_next_number(v: Seq<ExportCycle>, i: int)
    requires
        0 <= i < v.len(),
        trailing_number_of(v[i].name@) is Some,
    ensures
        max_trailing(v) is Some,
        trailing_number_of(v[i].name@)->0 < next_number_of(v),
    decreases v.len(),
{
    if i < v.len() - 1 {
        assert(v.drop_last()[i] == v[i]);
        lemma_next_number(v.drop_last(), i);
    }
}

/// A cycle.
pub open spec fn cycle_tree(c: ExportCycle) -> YTree {
    YTree::Dict(
        config::with_flag(
            Map::empty().insert("id"@, ydoc::ystr(c.id@)).insert(
                "name"@,
                ydoc::ystr(c.name@),
            ).insert("start_date"@, ydoc::ystr(c.start_date@)).insert(
                "end_date"@,
                ydoc::ystr(c.end_date@),
            ),
            "archived"@,
            c.archived,
        ),
    )
}

/// The cycles by id.
pub open spec fn cycle_trees(v: Seq<ExportCycle>) -> Map<Seq<char>, YTree>
    decreases v.len(),
{
    if v.len() == 0 {
        Map::empty()
    } else {
        cycle_trees(v.drop_last()).insert(v.last().id@, cycle_tree(v.last()))
    }
}

/// The configuration with the cycles, if there are any.
pub open spec fn with_cycles(config: Map<Seq<char>, YTree>, v: Seq<ExportCycle>) -> Map<
    Seq<char>,
    YTree,
> {
    if v.len() == 0 {
        config
    } else {
        config.insert("cycles"@, YTree::Dict(cycle_trees(v)))
    }
}

/// Whether the number of the next cycle can be counted.
pub open spec fn cycles_ok(e: SpaceExport) -> bool {
    e.cycle_config is Some ==> next_number_of(e.cycles@) <= i64::MAX
}

fn next_number(v: &Vec<ExportCycle>) -> (r: i64)
    requires
        next_number_of(v@) <= i64::MAX,
    ensures
        r == next_number_of(v@),
{
    let mut best: Option<i64> = None;
    let mut i: usize = 0;
    assert(v@.take(0) =~= seq![]);
    while i < v.len()
        invariant
            i <= v@.len(),
            text::opt_i64(best) == max_trailing(v@.take(i as int)),
        decreases v@.len() - i,
    {
        assert(v@.take(i + 1).drop_last() =~= v@.take(i as int));
        if let Some(n) = trailing_number(v[i].name.as_str()) {
            best = match best {
                Some(b) => if b <= n {
                    Some(n)
                } else {
                    Some(b)
                },
                None => Some(n),
            };
        }
        i = i + 1;
    }
    assert(v@.take(v@.len() as int) =~= v@);
    match best {
        Some(n) => n + 1,
        None => v.len() as i64 + 1,
    }
}

fn build_cycles_instances(config: &mut Vec<(String, In)>, v: &Vec<ExportCycle>)
    ensures
        ydoc::entries_tree(final(config)@) == with_cycles(ydoc::entries_tree(old(config)@), v@),
{
    if v.len() == 0 {
        return ;
    }
    let mut cycles: Vec<(String, In)> = Vec::new();
    let mut i: usize = 0;
    assert(v@.take(0) =~= seq![]);
    while i < v.len()
        invariant
            i <= v@.len(),
            ydoc::entries_tree(cycles@) == cycle_trees(v@.take(i as int)),
        decreases v@.len() - i,
    {
        assert(v@.take(i + 1).drop_last() =~= v@.take(i as int));
        let c = &v[i];
        let mut e: Vec<(String, In)> = Vec::new();
        put_str(&mut e, "id", c.id.as_str());
        put_str(&mut e, "name", c.name.as_str());
        put_str(&mut e, "start_date", c.start_date.as_str());
        put_str(&mut e, "end_date", c.end_date.as_str());
        put_flag(&mut e, "archived", c.archived);
        put(&mut cycles, c.id.as_str(), ydoc::in_dict(e));
        i = i + 1;
    }
    assert(v@.take(v@.len() as int) =~= v@);
    put(config, "cycles", ydoc::in_dict(cycles));
}

// ---------------------------------------------------------------------------
// Assignee cache
// ---------------------------------------------------------------------------

/// What the cache holds of a user.
pub open spec fn cached_user(u: ExportUser, now: Seq<char>) -> YTree {
    YTree::Dict(
        Map::empty().insert("name"@, ydoc::ystr(u.display_name@)).insert(
            "avatar_url"@,
            ydoc::ystr(""@),
        ).insert("cached_at"@, ydoc::ystr(now)).insert("removed_at"@, ydoc::ystr(""@)),
    )
}

/// The mapped users, by new id.
pub open spec fn cached_users(
    v: Seq<ExportUser>,
    users: Map<Seq<char>, String>,
    now: Seq<char>,
) -> Map<Seq<char>, YTree>
    decreases v.len(),
{
    if v.len() == 0 {
        Map::empty()
    } else {
        let rest = cached_users(v.drop_last(), users, now);
        let k = v.last().id@;
        if users.contains_key(k) {
            rest.insert(users[k]@, cached_user(v.last(), now))
        } else {
            rest
        }
    }
}

/// What the cache holds of a team.
pub open spec fn cached_team(t: ExportTeam, now: Seq<char>) -> YTree {
    YTree::Dict(
        Map::empty().insert("name"@, ydoc::ystr(t.name@)).insert(
            "member_count"@,
            ydoc::ynumber(0),
        ).insert("cached_at"@, ydoc::ystr(now)).insert("removed_at"@, ydoc::ystr(""@)),
    )
}

/// The mapped teams, by new id.
pub open spec fn cached_teams(
    v: Seq<ExportTeam>,
    teams: Map<Seq<char>, String>,
    now: Seq<char>,
) -> Map<Seq<char>, YTree>
    decreases v.len(),
{
    if v.len() == 0 {
        Map::empty()
    } else {
        let rest = cached_teams(v.drop_last(), teams, now);
        let k = v.last().id@;
        if teams.contains_key(k) {
            rest.insert(teams[k]@, cached_team(v.last(), now))
        } else {
            rest
        }
    }
}

/// The names by which assignees are shown. Users and teams that are not mapped are
/// left out.
pub open spec fn assignee_cache(
    e: SpaceExport,
    users: Map<Seq<char>, String>,
    teams: Map<Seq<char>, String>,
    now: Seq<char>,
) -> YTree {
    YTree::Dict(
        Map::empty().insert("users"@, YTree::Dict(cached_users(e.users@, users, now))).insert(
            "teams"@,
            YTree::Dict(cached_teams(e.teams@, teams, now)),
        ),
    )
}

fn user_cache(v: &Vec<ExportUser>, users: &StrMap<String>, now: &str) -> (r: Vec<(String, In)>)
    ensures
        ydoc::entries_tree(r@) == cached_users(v@, users@, now@),
{
    let mut out: Vec<(String, In)> = Vec::new();
    let mut i: usize = 0;
    assert(v@.take(0) =~= seq![]);
    while i < v.len()
        invariant
            i <= v@.len(),
            ydoc::entries_tree(out@) == cached_users(v@.take(i as int), users@, now@),
        decreases v@.len() - i,
    {
        assert(v@.take(i + 1).drop_last() =~= v@.take(i as int));
        if let Some(mapped) = users.get(v[i].id.as_str()) {
            let mut e: Vec<(String, In)> = Vec::new();
            put_str(&mut e, "name", v[i].display_name.as_str());
            put_str(&mut e, "avatar_url", "");
            put_str(&mut e, "cached_at", now);
            put_str(&mut e, "removed_at", "");
            put(&mut out, mapped.as_str(), ydoc::in_dict(e));
        }
        i = i + 1;
    }
    assert(v@.take(v@.len() as int) =~= v@);
    out
}

fn team_cache(v: &Vec<ExportTeam>, teams: &StrMap<String>, now: &str) -> (r: Vec<(String, In)>)
    ensures
        ydoc::entries_tree(r@) == cached_teams(v@, teams@, now@),
{
    let mut out: Vec<(String, In)> = Vec::new();
    let mut i: usize = 0;
    assert(v@.take(0) =~= seq![]);
    while i < v.len()
        invariant
            i <= v@.len(),
            ydoc::entries_tree(out@) == cached_teams(v@.take(i as int), teams@, now@),
        decreases v@.len() - i,
    {
        assert(v@.take(i + 1).drop_last() =~= v@.take(i as int));
        if let Some(mapped) = teams.get(v[i].id.as_str()) {
            let mut e: Vec<(String, In)> = Vec::new();
            put_str(&mut e, "name", v[i].name.as_str());
            put(&mut e, "member_count", ydoc::in_number(0));
            put_str(&mut e, "cached_at", now);
            put_str(&mut e, "removed_at", "");
            put(&mut out, mapped.as_str(), ydoc::in_dict(e));
        }
        i = i + 1;
    }
    assert(v@.take(v@.len() as int) =~= v@);
    out
}

fn build_assignee_cache(
    config: &mut Vec<(String, In)>,
    e: &SpaceExport,
    users: &StrMap<String>,
    teams: &StrMap<String>,
    now: &str,
)
    ensures
        ydoc::entries_tree(final(config)@) == ydoc::entries_tree(old(config)@).insert(
            "assignee_cache"@,
            assignee_cache(*e, users@, teams@, now@),
        ),
{
    let mut cache: Vec<(String, In)> = Vec::new();
    put(&mut cache, "users", ydoc::in_dict(user_cache(&e.users, users, now)));
    put(&mut cache, "teams", ydoc::in_dict(team_cache(&e.teams, teams, now)));
    put(config, "assignee_cache", ydoc::in_dict(cache));
}

// ---------------------------------------------------------------------------
// The configuration
// ---------------------------------------------------------------------------

/// The number of the next cycle of an imported space.
pub open spec fn next_cycle(v: Seq<ExportCycle>) -> int {
    if v.len() == 0 {
        1
    } else {
        next_number_of(v)
    }
}

/// The configuration of an imported space.
pub open spec fn config_tree(
    e: SpaceExport,
    users: &StrMap<String>,
    teams: &StrMap<String>,
    now: Seq<char>,
) -> Map<Seq<char>, YTree> {
    let m = config::with_labels(Map::empty(), e.labels, Some(users@));
    let m = with_milestones(m, e.milestones);
    let m = config::with_views(m, e.views, FilterPolicy::Remap { users, teams });
    let m = config::with_cycle_config(m, e.cycle_config, next_cycle(e.cycles@));
    let m = with_cycles(m, e.cycles@);
    let m = config::with_opt(m, "short_id_prefix"@, text::opt_text(e.space.short_id_prefix));
    let m = m.insert("short_id_visible"@, ydoc::ybool(e.space.short_id_visible));
    let m = instantiator::with_archive_config(m, instantiator::archive_days(e.archive_config));
    m.insert("assignee_cache"@, assignee_cache(e, users@, teams@, now))
}

/// Builds the configuration. Deprecators of labels and the filters of views are
/// mapped; what is not mapped is left out.
pub(crate) fn build_config(e: &SpaceExport, s: &Surroundings<'_>) -> (r: Vec<(String, In)>)
    requires
        cycles_ok(*e),
    ensures
        ydoc::entries_tree(r@) == config_tree(*e, s.users, s.teams, s.now@),
{
    let mut c: Vec<(String, In)> = Vec::new();
    config::build_labels(&mut c, &e.labels, Some(s.users));
    build_milestones_absolute(&mut c, &e.milestones);
    config::build_views(&mut c, &e.views, &FilterPolicy::Remap { users: s.users, teams: s.teams });
    let next: i64 = if e.cycles.len() == 0 || e.cycle_config.is_none() {
        1
    } else {
        next_number(&e.cycles)
    };
    config::build_cycle_config(&mut c, &e.cycle_config, next);
    build_cycles_instances(&mut c, &e.cycles);
    put_opt(&mut c, "short_id_prefix", &e.space.short_id_prefix);
    put(&mut c, "short_id_visible", ydoc::in_bool(e.space.short_id_visible));
    instantiator::put_archive_config(&mut c, &e.archive_config);
    build_assignee_cache(&mut c, e, s.users, s.teams, s.now);
    c
}

/// A name that ends in a number, behind anything but a digit, ends in that number; a name
/// that ends in no digit has none.
pub proof fn lemma_trailing(head: Seq<char>, n: nat)
    requires
        n <= i64::MAX,
        head.len() > 0 ==> !text::is_digit(head.last()),
    ensures
        trailing_number_of(head + text::decimal(n)) == Some(n as int),
        trailing_number_of(head) is None,
{
    let d = text::decimal(n);
    text::lemma_decimal(n);
    lemma_digit_tail(head, d);
    text::lemma_parse_decimal(n, i64::MIN as int, i64::MAX as int);
}

proof fn lemma_digit_tail(head: Seq<char>, d: Seq<char>)
    requires
        head.len() > 0 ==> !text::is_digit(head.last()),
        forall|i: int| 0 <= i < d.len() ==> text::is_digit(#[trigger] d[i]),
    ensures
        digit_tail(head + d) == d,
    decreases d.len(),
{
    let s = head + d;
    if d.len() == 0 {
        assert(s =~= head);
        assert(digit_tail(s) =~= d);
    } else {
        assert(s.last() == d[d.len() - 1]);
        assert(s.drop_last() =~= head + d.drop_last());
        lemma_digit_tail(head, d.drop_last());
        assert(d.drop_last().push(d.last()) =~= d);
    }
}

/// The number of the next cycle is one more than the greatest number that a name ends in;
/// where no name ends in one, it is one more than there are cycles.
pub proof fn lemma_next_cycle(v: Seq<ExportCycle>, k: int, n: int)
    requires
        0 <= k < v.len(),
    ensures
        trailing_number_of(v[k].name@) == Some(n) && (forall|i: int|
            #![trigger v[i]]
            0 <= i < v.len() ==> match trailing_number_of(v[i].name@) {
                Some(m) => m <= n,
                None => true,
            }) ==> next_number_of(v) == n + 1,
        (forall|i: int| 0 <= i < v.len() ==> trailing_number_of((#[trigger] v[i]).name@) is None)
            ==> next_number_of(v) == v.len() + 1,
{
    if trailing_number_of(v[k].name@) == Some(n) && (forall|i: int|
        #![trigger v[i]]
        0 <= i < v.len() ==> match trailing_number_of(v[i].name@) {
            Some(m) => m <= n,
            None => true,
        }) {
        lemma_next_number(v, k);
        lemma_bounded(v, n);
    }
    if forall|i: int| 0 <= i < v.len() ==> trailing_number_of((#[trigger] v[i]).name@) is None {
        lemma_unnumbered(v);
    }
}

proof fn lemma_bounded(v: Seq<ExportCycle>, n: int)
    requires
        forall|i: int|
            #![trigger v[i]]
            0 <= i < v.len() ==> match trailing_number_of(v[i].name@) {
                Some(m) => m <= n,
                None => true,
            },
    ensures
        max_trailing(v) matches Some(m) ==> m <= n,
    decreases v.len(),
{
    if v.len() > 0 {
        let w = v.drop_last();
        assert forall|i: int|
            #![trigger w[i]]
            0 <= i < w.len() implies match trailing_number_of(w[i].name@) {
            Some(m) => m <= n,
            None => true,
        } by {
            assert(w[i] == v[i]);
        }
        lemma_bounded(w, n);
        let last = v[v.len() - 1];
    }
}

proof fn lemma_unnumbered(v: Seq<ExportCycle>)
    requires
        forall|i: int| 0 <= i < v.len() ==> trailing_number_of((#[trigger] v[i]).name@) is None,
    ensures
        max_trailing(v) is None,
    decreases v.len(),
{
    if v.len() > 0 {
        let w = v.drop_last();
        assert forall|i: int| 0 <= i < w.len() implies trailing_number_of(
            (#[trigger] w[i]).name@,
        ) is None by {
            assert(w[i] == v[i]);
        }
        lemma_unnumbered(w);
        assert(trailing_number_of(v[v.len() - 1].name@) is None);
    }
}

} // verus!
