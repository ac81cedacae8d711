//! The member list. Hoisted roles get their own section, highest priority
//! first; everyone else is online or offline.
use vstd::prelude::*;

use crate::model::{Role, UserId};
use crate::number::{decimal, decimal_nat};
use crate::order::{ordered, ordered_contains, ordered_is_sorted_permutation, sort, Ranked};
use crate::seqs::{first, lemma_filter_contains, lemma_first, lemma_first_found, select};
use crate::text::cat4;
use crate::ui::app::{color_in, is_here, known, name_in, App, Screen};
use crate::ui::render::panes::{add_section, run, section, sections_stand_below_each_other};
use crate::ui::render::{truncate, truncated, MEMBERS_WIDTH};
use crate::ui::style::{fg, plain, Line, Run, Span, Style};

verus! {

/// A text in uppercase.
pub uninterp spec fn uppercase_text(text: Seq<char>) -> Seq<char>;

/// [`str::to_uppercase`], which depends on the text alone.
#[verifier::external_body]
fn to_uppercase(text: &str) -> (r: String)
    ensures
        r@ == uppercase_text(text@),
{
    text.to_uppercase()
}

// ---------------------------------------------------------------------------
// hoisted roles
// ---------------------------------------------------------------------------

/// A role with a section of its own.
#[derive(Debug)]
pub struct Hoisted {
    pub role: Role,
}

/// By descending priority.
impl Ranked for Hoisted {
    open spec fn ranks(self, other: Self) -> bool {
        self.role.priority >= other.role.priority
    }

    proof fn ranks_total(a: Self, b: Self) {
    }

    proof fn ranks_transitive(a: Self, b: Self, c: Self) {
    }

    fn before(&self, other: &Self) -> (r: bool) {
        self.role.priority >= other.role.priority
    }
}

/// Whether a role with this id is among them.
pub open spec fn among(found: Seq<Hoisted>, id: i64) -> bool {
    exists|i: int| 0 <= i < found.len() && (#[trigger] found[i]).role.id == id
}

/// The hoisted ones of the first `n` roles, added where they are new.
pub open spec fn with_roles(found: Seq<Hoisted>, roles: Seq<Role>, n: int) -> Seq<Hoisted>
    decreases n,
{
    if n <= 0 {
        found
    } else {
        let rest = with_roles(found, roles, n - 1);
        let role = roles[n - 1];
        if role.hoisted && !among(rest, role.id) {
            rest.push(Hoisted { role })
        } else {
            rest
        }
    }
}

/// The hoisted roles that the first `n` members hold.
pub open spec fn held_roles(s: Screen, n: int) -> Seq<Hoisted>
    decreases n,
{
    if n <= 0 {
        seq![]
    } else {
        let rest = held_roles(s, n - 1);
        match known(s.users, s.members[n - 1]) {
            Some(u) => with_roles(rest, u.roles@, u.roles@.len() as int),
            None => rest,
        }
    }
}

/// The roles with a section, from top to bottom.
pub open spec fn hoisted_roles(s: Screen) -> Seq<Hoisted> {
    ordered(held_roles(s, s.members.len() as int))
}

// ---------------------------------------------------------------------------
// sections
// ---------------------------------------------------------------------------

pub open spec fn is_hoisted() -> spec_fn(Role) -> bool {
    |r: Role| r.hoisted
}

/// The role that a user is listed under: the first of theirs that is hoisted.
pub open spec fn lead_role(s: Screen, id: UserId) -> Option<Role> {
    match known(s.users, id) {
        Some(u) => first(u.roles@, is_hoisted()),
        None => None,
    }
}

/// Who is listed under a role: those who are online and lead with it.
pub open spec fn led_by(s: Screen, role: i64) -> spec_fn(UserId) -> bool {
    |id: UserId|
        is_here(s.users, id) && lead_role(s, id) is Some && lead_role(s, id)->Some_0.id == role
}

/// Who is listed under the first `n` of these roles.
pub open spec fn listed(s: Screen, roles: Seq<Hoisted>, n: int) -> Seq<UserId>
    decreases n,
{
    if n <= 0 {
        seq![]
    } else {
        listed(s, roles, n - 1) + s.members.filter(led_by(s, roles[n - 1].role.id))
    }
}

pub open spec fn rest_online(s: Screen, listed: Seq<UserId>) -> spec_fn(UserId) -> bool {
    |id: UserId| !listed.contains(id) && is_here(s.users, id)
}

pub open spec fn unlisted(listed: Seq<UserId>) -> spec_fn(UserId) -> bool {
    |id: UserId| !listed.contains(id)
}

/// Who is listed under a role.
pub open spec fn hoisted_members(s: Screen) -> Seq<UserId> {
    listed(s, hoisted_roles(s), hoisted_roles(s).len() as int)
}

/// Who is online but under no role.
pub open spec fn online_members(s: Screen) -> Seq<UserId> {
    s.members.filter(rest_online(s, hoisted_members(s)))
}

/// Who is left.
pub open spec fn offline_members(s: Screen) -> Seq<UserId> {
    s.members.filter(unlisted(hoisted_members(s) + online_members(s)))
}

// ---------------------------------------------------------------------------
// lines
// ---------------------------------------------------------------------------

pub open spec fn member_runs(s: Screen, id: UserId) -> Seq<Run> {
    let style = if is_here(s.users, id) {
        fg(color_in(s.users, s.theme, id))
    } else {
        fg(s.theme.shows(s.theme.palette.dim))
    };
    seq![
        run(" "@, plain()),
        run(
            if is_here(s.users, id) {
                "\u{25cf} "@
            } else {
                "\u{25cb} "@
            },
            style,
        ),
        run(truncated(name_in(s.users, id), (MEMBERS_WIDTH - 4) as nat), style),
    ]
}

pub open spec fn member_lines(s: Screen, ids: Seq<UserId>) -> Seq<Seq<Run>> {
    ids.map_values(|id: UserId| member_runs(s, id))
}

/// A section of the list with its title, unless it is empty.
pub open spec fn member_section(
    s: Screen,
    above: Seq<Seq<Run>>,
    title: Seq<char>,
    ids: Seq<UserId>,
) -> Seq<Seq<Run>> {
    section(
        above,
        " "@ + title + " \u{2014} "@ + decimal_nat(ids.len()),
        member_lines(s, ids),
        s.theme,
    )
}

/// The sections of the first `n` of these roles.
pub open spec fn role_sections(s: Screen, roles: Seq<Hoisted>, n: int) -> Seq<Seq<Run>>
    decreases n,
{
    if n <= 0 {
        seq![]
    } else {
        let role = roles[n - 1].role;
        member_section(
            s,
            role_sections(s, roles, n - 1),
            uppercase_text(role.name@),
            s.members.filter(led_by(s, role.id)),
        )
    }
}

pub open spec fn members_of(s: Screen) -> Seq<Seq<Run>> {
    let roles = hoisted_roles(s);
    let top = role_sections(s, roles, roles.len() as int);
    let middle = member_section(s, top, "ONLINE"@, online_members(s));
    member_section(s, middle, "OFFLINE"@, offline_members(s))
}

// ---------------------------------------------------------------------------
// drawing
// ---------------------------------------------------------------------------

fn holds(found: &Vec<Hoisted>, id: i64) -> (r: bool)
    ensures
        r == among(found@, id),
{
    let mut i: usize = 0;
    while i < found.len()
        invariant
            i <= found.len(),
            forall|j: int| 0 <= j < i ==> (#[trigger] found[j]).role.id != id,
        decreases found.len() - i,
    {
        if found[i].role.id == id {
            return true;
        }
        i += 1;
    }
    false
}

fn add_roles(found: &mut Vec<Hoisted>, roles: &Vec<Role>)
    ensures
        final(found)@ == with_roles(old(found)@, roles@, roles@.len() as int),
{
    let mut i: usize = 0;
    while i < roles.len()
        invariant
            i <= roles.len(),
            found@ == with_roles(old(found)@, roles@, i as int),
        decreases roles.len() - i,
    {
        if roles[i].hoisted && !holds(found, roles[i].id) {
            found.push(Hoisted { role: roles[i].clone() });
        }
        i += 1;
    }
}

fn hoisted(app: &App) -> (r: Vec<Hoisted>)
    ensures
        r@ == hoisted_roles(app@),
{
    let mut found: Vec<Hoisted> = Vec::new();
    let mut i: usize = 0;
    while i < app.members.len()
        invariant
            i <= app.members.len(),
            found@ == held_roles(app@, i as int),
        decreases app.members.len() - i,
    {
        if let Some(user) = app.user(app.members[i]) {
            add_roles(&mut found, &user.roles);
        }
        i += 1;
    }
    sort(found)
}

/// Whether someone is listed under a role.
fn leads_with(app: &App, id: UserId, role: i64) -> (r: bool)
    ensures
        r == led_by(app@, role)(id),
{
    let user = match app.user(id) {
        Some(user) => user,
        None => {
            return false;
        },
    };
    if !user.online {
        return false;
    }
    let mut i: usize = 0;
    while i < user.roles.len()
        invariant
            i <= user.roles.len(),
            known(app@.users, id) == Some(*user),
            user.online,
            forall|j: int| 0 <= j < i ==> !is_hoisted()(#[trigger] user.roles@[j]),
        decreases user.roles.len() - i,
    {
        if user.roles[i].hoisted {
            proof {
                lemma_first(user.roles@, is_hoisted(), i as int);
            }
            return user.roles[i].id == role;
        }
        i += 1;
    }
    proof {
        lemma_first(user.roles@, is_hoisted(), i as int);
    }
    false
}

fn contains_id(ids: &Vec<UserId>, id: UserId) -> (r: bool)
    ensures
        r == ids@.contains(id),
{
    let mut i: usize = 0;
    while i < ids.len()
        invariant
            i <= ids.len(),
            forall|j: int| 0 <= j < i ==> ids@[j] != id,
        decreases ids.len() - i,
    {
        if ids[i] == id {
            assert(ids@[i as int] == id);
            return true;
        }
        i += 1;
    }
    false
}

fn member_row(app: &App, id: UserId) -> (r: Line)
    ensures
        r.deep_view() == member_runs(app@, id),
{
    let online = app.is_here(id);
    let name = app.user_name(id);
    let style = if online {
        Style::new().fg(app.user_color(id))
    } else {
        Style::new().fg(app.theme.dim())
    };
    let mark = if online {
        "\u{25cf} "
    } else {
        "\u{25cb} "
    };
    let mut spans: Vec<Span> = Vec::new();
    spans.push(Span::raw(" ".to_owned()));
    spans.push(Span::styled(mark.to_owned(), style));
    spans.push(Span::styled(truncate(name.as_str(), MEMBERS_WIDTH as usize - 4), style));
    assert(spans.deep_view() =~= member_runs(app@, id));
    Line { spans }
}

/// Add a section of the list, unless nobody is in it.
pub fn push_section(app: &App, lines: &mut Vec<Line>, title: &str, ids: &Vec<UserId>)
    ensures
        final(lines).deep_view() == member_section(
            app@,
            old(lines).deep_view(),
            title@,
            ids@,
        ),
{
    let mut rows: Vec<Line> = Vec::new();
    assert(rows.deep_view() =~= seq![]);
    let mut i: usize = 0;
    while i < ids.len()
        invariant
            i <= ids.len(),
            rows.deep_view() == member_lines(app@, ids@.take(i as int)),
        decreases ids.len() - i,
    {
        let ghost before = rows.deep_view();
        let row = member_row(app, ids[i]);
        rows.push(row);
        proof {
            assert(rows.deep_view() =~= before.push(row.deep_view()));
            assert(ids@.take(i + 1) == ids@.take(i as int).push(ids@[i as int]));
            assert(rows.deep_view() =~= member_lines(app@, ids@.take(i + 1)));
        }
        i += 1;
    }
    assert(ids@.take(i as int) == ids@);
    let count = decimal(ids.len() as u64);
    add_section(lines, cat4(" ", title, " \u{2014} ", count.as_str()), rows, &app.theme);
}

/// The lines of the member list.
pub fn members(app: &App) -> (r: Vec<Line>)
    ensures
        r.deep_view() == members_of(app@),
{
    let mut lines: Vec<Line> = Vec::new();
    let mut shown: Vec<UserId> = Vec::new();
    let roles = hoisted(app);
    assert(lines.deep_view() =~= seq![]);
    let mut i: usize = 0;
    while i < roles.len()
        invariant
            i <= roles.len(),
            lines.deep_view() == role_sections(app@, roles@, i as int),
            shown@ == listed(app@, roles@, i as int),
        decreases roles.len() - i,
    {
        let role = roles[i].role.id;
        let mut ids = select(
            &app.members,
            |id: &UserId| -> (b: bool)
                ensures
                    b == led_by(app@, role)(*id)
                { leads_with(app, *id, role) },
            Ghost(led_by(app@, role)),
        );
        let title = to_uppercase(roles[i].role.name.as_str());
        push_section(app, &mut lines, title.as_str(), &ids);
        shown.append(&mut ids);
        i += 1;
    }
    let mut online = select(
        &app.members,
        |id: &UserId| -> (b: bool)
            ensures
                b == rest_online(app@, shown@)(*id)
            { !contains_id(&shown, *id) && app.is_here(*id) },
        Ghost(rest_online(app@, shown@)),
    );
    push_section(app, &mut lines, "ONLINE", &online);
    shown.append(&mut online);
    let offline = select(
        &app.members,
        |id: &UserId| -> (b: bool)
            ensures
                b == unlisted(shown@)(*id)
            { !contains_id(&shown, *id) },
        Ghost(unlisted(shown@)),
    );
    push_section(app, &mut lines, "OFFLINE", &offline);
    lines
}

// ---------------------------------------------------------------------------
// who is listed where
// ---------------------------------------------------------------------------

proof fn lemma_with_roles(found: Seq<Hoisted>, roles: Seq<Role>, n: int)
    requires
        0 <= n <= roles.len(),
    ensures
        forall|id: i64| among(found, id) ==> #[trigger] among(with_roles(found, roles, n), id),
        forall|k: int|
            0 <= k < n && (#[trigger] roles[k]).hoisted ==> among(
                with_roles(found, roles, n),
                roles[k].id,
            ),
    decreases n,
{
    if n > 0 {
        lemma_with_roles(found, roles, n - 1);
        let rest = with_roles(found, roles, n - 1);
        let all = with_roles(found, roles, n);
        assert forall|id: i64| among(rest, id) implies among(all, id) by {
            let i = choose|i: int| 0 <= i < rest.len() && (#[trigger] rest[i]).role.id == id;
            assert(all[i].role.id == id);
        }
        if roles[n - 1].hoisted && !among(rest, roles[n - 1].id) {
            assert(all[all.len() - 1].role.id == roles[n - 1].id);
        }
        assert forall|id: i64| among(found, id) implies #[trigger] among(all, id) by {
            assert(among(rest, id));
        }
    }
}

proof fn lemma_held(s: Screen, n: int, k: int)
    requires
        0 <= k < n <= s.members.len(),
        lead_role(s, s.members[k]) is Some,
    ensures
        among(held_roles(s, n), lead_role(s, s.members[k])->Some_0.id),
    decreases n,
{
    let rest = held_roles(s, n - 1);
    let id = lead_role(s, s.members[k])->Some_0.id;
    match known(s.users, s.members[n - 1]) {
        Some(u) => {
            lemma_with_roles(rest, u.roles@, u.roles@.len() as int);
            if k == n - 1 {
                lemma_first_found(u.roles@, is_hoisted());
                let i = choose|i: int| 0 <= i < u.roles@.len() && u.roles@[i].id == id
                    && u.roles@[i].hoisted;
                assert(among(held_roles(s, n), u.roles@[i].id));
            } else {
                lemma_held(s, n - 1, k);
                assert(among(rest, id));
            }
        },
        None => {
            lemma_held(s, n - 1, k);
        },
    }
}

proof fn lemma_listed(s: Screen, roles: Seq<Hoisted>, n: int, id: UserId)
    requires
        0 <= n <= roles.len(),
    ensures
        listed(s, roles, n).contains(id) <==> s.members.contains(id) && exists|i: int|
            0 <= i < n && led_by(s, (#[trigger] roles[i]).role.id)(id),
    decreases n,
{
    if n > 0 {
        lemma_listed(s, roles, n - 1, id);
        let rest = listed(s, roles, n - 1);
        let more = s.members.filter(led_by(s, roles[n - 1].role.id));
        lemma_filter_contains(s.members, led_by(s, roles[n - 1].role.id));
        lemma_contains_add(rest, more, id);
    }
}

proof fn lemma_contains_add(a: Seq<UserId>, b: Seq<UserId>, id: UserId)
    ensures
        (a + b).contains(id) <==> a.contains(id) || b.contains(id),
{
    if a.contains(id) {
        let i = choose|i: int| 0 <= i < a.len() && a[i] == id;
        assert((a + b)[i] == id);
    }
    if b.contains(id) {
        let i = choose|i: int| 0 <= i < b.len() && b[i] == id;
        assert((a + b)[a.len() + i] == id);
    }
}

proof fn lemma_filter_unique(s: Seq<UserId>, keep: spec_fn(UserId) -> bool)
    requires
        s.no_duplicates(),
    ensures
        s.filter(keep).no_duplicates(),
    decreases s.len(),
{
    reveal(Seq::filter);
    if s.len() > 0 {
        let rest = s.drop_last();
        lemma_filter_unique(rest, keep);
        lemma_filter_contains(rest, keep);
        let kept = rest.filter(keep);
        if kept.contains(s.last()) {
            let i = choose|i: int| 0 <= i < rest.len() && rest[i] == s.last();
            assert(s[i] == s[s.len() - 1]);
        }
        assert forall|i: int| 0 <= i < kept.len() implies kept[i] != s.last() by {
            assert(kept.contains(kept[i]));
        }
    }
}

spec fn one_of_each(found: Seq<Hoisted>) -> bool {
    forall|i: int, j: int|
        0 <= i < j < found.len() ==> (#[trigger] found[i]).role.id != (
        #[trigger] found[j]).role.id
}

proof fn lemma_with_roles_once(found: Seq<Hoisted>, roles: Seq<Role>, n: int)
    requires
        one_of_each(found),
    ensures
        one_of_each(with_roles(found, roles, n)),
    decreases n,
{
    if n > 0 {
        lemma_with_roles_once(found, roles, n - 1);
    }
}

proof fn lemma_held_once(s: Screen, n: int)
    ensures
        one_of_each(held_roles(s, n)),
    decreases n,
{
    if n > 0 {
        lemma_held_once(s, n - 1);
        if let Some(u) = known(s.users, s.members[n - 1]) {
            lemma_with_roles_once(held_roles(s, n - 1), u.roles@, u.roles@.len() as int);
        }
    }
}

proof fn lemma_hoisted_once(s: Screen)
    ensures
        one_of_each(hoisted_roles(s)),
{
    broadcast use vstd::seq_lib::group_to_multiset_ensures;

    let held = held_roles(s, s.members.len() as int);
    let roles = hoisted_roles(s);
    lemma_held_once(s, s.members.len() as int);
    ordered_is_sorted_permutation(held);
    held.lemma_multiset_has_no_duplicates();
    assert forall|x: Hoisted| roles.to_multiset().contains(x) implies roles.to_multiset().count(x)
        == 1 by {}
    roles.lemma_multiset_has_no_duplicates_conv();
    assert forall|i: int, j: int| 0 <= i < j < roles.len() implies (#[trigger] roles[i]).role.id
        != (#[trigger] roles[j]).role.id by {
        ordered_contains(held, roles[i]);
        ordered_contains(held, roles[j]);
        assert(roles.contains(roles[i]) && roles.contains(roles[j]));
        let a = choose|a: int| 0 <= a < held.len() && held[a] == roles[i];
        let b = choose|b: int| 0 <= b < held.len() && held[b] == roles[j];
        assert(a != b);
    }
}

proof fn lemma_listed_once(s: Screen, roles: Seq<Hoisted>, n: int)
    requires
        s.members.no_duplicates(),
        one_of_each(roles),
        0 <= n <= roles.len(),
    ensures
        listed(s, roles, n).no_duplicates(),
    decreases n,
{
    if n > 0 {
        lemma_listed_once(s, roles, n - 1);
        let rest = listed(s, roles, n - 1);
        let keep = led_by(s, roles[n - 1].role.id);
        let more = s.members.filter(keep);
        lemma_filter_unique(s.members, keep);
        lemma_filter_contains(s.members, keep);
        assert forall|i: int, j: int| 0 <= i < rest.len() && 0 <= j < more.len() implies rest[i]
            != more[j] by {
            lemma_listed(s, roles, n - 1, rest[i]);
            assert(rest.contains(rest[i]) && more.contains(more[j]));
        }
        lemma_unique_add(rest, more);
    }
}

proof fn lemma_unique_add(a: Seq<UserId>, b: Seq<UserId>)
    requires
        a.no_duplicates(),
        b.no_duplicates(),
        forall|i: int, j: int| 0 <= i < a.len() && 0 <= j < b.len() ==> a[i] != b[j],
    ensures
        (a + b).no_duplicates(),
{
}

/// Nobody is in the list twice, as long as nobody is twice among the members,
/// and nobody else is in it.
pub proof fn nobody_is_listed_twice(s: Screen)
    requires
        s.members.no_duplicates(),
    ensures
        (hoisted_members(s) + online_members(s) + offline_members(s)).no_duplicates(),
        forall|id: UserId|
            (hoisted_members(s) + online_members(s) + offline_members(s)).contains(id)
                ==> #[trigger] s.members.contains(id),
{
    let roles = hoisted_roles(s);
    let (top, middle, bottom) = (hoisted_members(s), online_members(s), offline_members(s));
    lemma_hoisted_once(s);
    lemma_listed_once(s, roles, roles.len() as int);
    lemma_filter_unique(s.members, rest_online(s, top));
    lemma_filter_unique(s.members, unlisted(top + middle));
    lemma_filter_contains(s.members, rest_online(s, top));
    lemma_filter_contains(s.members, unlisted(top + middle));
    assert forall|i: int, j: int| 0 <= i < top.len() && 0 <= j < middle.len() implies top[i]
        != middle[j] by {
        assert(top.contains(top[i]) && middle.contains(middle[j]));
    }
    lemma_unique_add(top, middle);
    let shown = top + middle;
    assert forall|i: int, j: int| 0 <= i < shown.len() && 0 <= j < bottom.len() implies shown[i]
        != bottom[j] by {
        assert(shown.contains(shown[i]) && bottom.contains(bottom[j]));
    }
    lemma_unique_add(shown, bottom);
    assert forall|id: UserId| (shown + bottom).contains(id) implies #[trigger] s.members.contains(
        id,
    ) by {
        lemma_listed(s, roles, roles.len() as int, id);
        lemma_contains_add(shown, bottom, id);
        lemma_contains_add(top, middle, id);
    }
}

/// Every member is in the list, and in one part of it only: under a role when
/// they are online and hold a hoisted one, under ONLINE when they are online
/// and hold none, and under OFFLINE otherwise.
pub proof fn every_member_is_listed_once(s: Screen, id: UserId)
    requires
        s.members.contains(id),
    ensures
        s.members.no_duplicates() ==> (hoisted_members(s) + online_members(s) + offline_members(
            s,
        )).no_duplicates(),
        hoisted_members(s).contains(id) <==> is_here(s.users, id) && lead_role(s, id) is Some,
        online_members(s).contains(id) <==> is_here(s.users, id) && lead_role(s, id) is None,
        offline_members(s).contains(id) <==> !is_here(s.users, id),
{
    let held = held_roles(s, s.members.len() as int);
    let roles = hoisted_roles(s);
    if s.members.no_duplicates() {
        nobody_is_listed_twice(s);
    }
    lemma_listed(s, roles, roles.len() as int, id);
    if is_here(s.users, id) && lead_role(s, id) is Some {
        let k = choose|k: int| 0 <= k < s.members.len() && s.members[k] == id;
        let want = lead_role(s, id)->Some_0.id;
        lemma_held(s, s.members.len() as int, k);
        let i = choose|i: int| 0 <= i < held.len() && (#[trigger] held[i]).role.id == want;
        ordered_contains(held, held[i]);
        assert(held.contains(held[i]));
        let j = choose|j: int| 0 <= j < roles.len() && roles[j] == held[i];
        assert(led_by(s, roles[j].role.id)(id));
    }
    lemma_filter_contains(s.members, rest_online(s, hoisted_members(s)));
    lemma_contains_add(hoisted_members(s), online_members(s), id);
    lemma_filter_contains(s.members, unlisted(hoisted_members(s) + online_members(s)));
}

/// The sections of hoisted roles stand in order of priority.
pub proof fn sections_follow_priority(s: Screen, i: int, j: int)
    requires
        0 <= i <= j < hoisted_roles(s).len(),
    ensures
        hoisted_roles(s)[i].role.priority >= hoisted_roles(s)[j].role.priority,
{
    ordered_is_sorted_permutation(held_roles(s, s.members.len() as int));
    assert(hoisted_roles(s)[i].ranks(hoisted_roles(s)[j]));
}

/// Someone is listed under the first of their roles that is hoisted, which is
/// the one of highest priority among those.
pub proof fn people_lead_with_their_first_hoisted_role(s: Screen, id: UserId)
    ensures
        match lead_role(s, id) {
            Some(role) => s.users.contains_key(id) && s.users[id].roles@.contains(role)
                && role.hoisted,
            None => !s.users.contains_key(id) || forall|r: Role| #[trigger]
                s.users[id].roles@.contains(r) ==> !r.hoisted,
        },
{
    if s.users.contains_key(id) {
        lemma_first_found(s.users[id].roles@, is_hoisted());
    }
}

/// A filled mark stands before whoever is here, in their colour, and an empty
/// one before anyone else, dimmed; the name follows, cut short if it is too
/// long.
pub proof fn marks_tell_who_is_here(s: Screen, id: UserId)
    ensures
        ({
            let r = member_runs(s, id);
            let name = name_in(s.users, id);
            &&& r.len() == 3
            &&& is_here(s.users, id) ==> r[1].text == "\u{25cf} "@ && r[2].style == fg(
                color_in(s.users, s.theme, id),
            )
            &&& !is_here(s.users, id) ==> r[1].text == "\u{25cb} "@ && r[2].style == fg(
                s.theme.shows(s.theme.palette.dim),
            )
            &&& name.len() <= MEMBERS_WIDTH - 4 ==> r[2].text == name
            &&& r[2].text.len() <= MEMBERS_WIDTH - 4
        }),
{
}

/// Everyone in a section has a line in it, in order, and its title says how many
/// they are.
pub proof fn sections_list_their_members(
    s: Screen,
    above: Seq<Seq<Run>>,
    title: Seq<char>,
    ids: Seq<UserId>,
    i: int,
)
    requires
        0 <= i < ids.len(),
    ensures
        ({
            let all = member_section(s, above, title, ids);
            let start = all.len() - ids.len();
            &&& all[start + i] == member_runs(s, ids[i])
            &&& all[start - 1][0].text == " "@ + title + " \u{2014} "@ + decimal_nat(ids.len())
            &&& all.take(above.len() as int) == above
        }),
{
    let rows = member_lines(s, ids);
    let name = " "@ + title + " \u{2014} "@ + decimal_nat(ids.len());
    sections_stand_below_each_other(above, name, rows, s.theme);
    let all = member_section(s, above, title, ids);
    assert(all.skip(all.len() - rows.len())[i] == rows[i]);
}

/// Those who are here but under no role are listed above those who are not
/// here, each under its title.
pub proof fn who_is_here_stands_above_who_is_not(s: Screen)
    ensures
        ({
            let roles = hoisted_roles(s);
            let top = role_sections(s, roles, roles.len() as int);
            let middle = member_section(s, top, "ONLINE"@, online_members(s));
            &&& members_of(s).take(middle.len() as int) == middle
            &&& middle.take(top.len() as int) == top
            &&& offline_members(s).len() > 0 ==> members_of(s).skip(
                members_of(s).len() - offline_members(s).len(),
            ) == member_lines(s, offline_members(s))
        }),
{
    let roles = hoisted_roles(s);
    let top = role_sections(s, roles, roles.len() as int);
    let middle = member_section(s, top, "ONLINE"@, online_members(s));
    let online = member_lines(s, online_members(s));
    let offline = member_lines(s, offline_members(s));
    sections_stand_below_each_other(
        top,
        " "@ + "ONLINE"@ + " \u{2014} "@ + decimal_nat(online_members(s).len()),
        online,
        s.theme,
    );
    sections_stand_below_each_other(
        middle,
        " "@ + "OFFLINE"@ + " \u{2014} "@ + decimal_nat(offline_members(s).len()),
        offline,
        s.theme,
    );
    assert(top.take(top.len() as int) =~= top);
    assert(middle.take(middle.len() as int) =~= middle);
}

/// Only hoisted roles have a section.
pub proof fn only_hoisted_roles_have_a_section(s: Screen, i: int)
    requires
        0 <= i < hoisted_roles(s).len(),
    ensures
        hoisted_roles(s)[i].role.hoisted,
{
    let held = held_roles(s, s.members.len() as int);
    let roles = hoisted_roles(s);
    ordered_contains(held, roles[i]);
    assert(roles.contains(roles[i]));
    let k = choose|k: int| 0 <= k < held.len() && held[k] == roles[i];
    lemma_held_are_hoisted(s, s.members.len() as int, k);
}

proof fn lemma_with_roles_hoisted(found: Seq<Hoisted>, roles: Seq<Role>, n: int, k: int)
    requires
        forall|j: int| 0 <= j < found.len() ==> (#[trigger] found[j]).role.hoisted,
        0 <= k < with_roles(found, roles, n).len(),
    ensures
        with_roles(found, roles, n)[k].role.hoisted,
    decreases n,
{
    if n > 0 {
        let rest = with_roles(found, roles, n - 1);
        if k < rest.len() {
            lemma_with_roles_hoisted(found, roles, n - 1, k);
        }
    }
}

proof fn lemma_held_are_hoisted(s: Screen, n: int, k: int)
    requires
        0 <= k < held_roles(s, n).len(),
    ensures
        held_roles(s, n)[k].role.hoisted,
    decreases n,
{
    if n > 0 {
        let rest = held_roles(s, n - 1);
        assert forall|j: int| 0 <= j < rest.len() implies (#[trigger] rest[j]).role.hoisted by {
            lemma_held_are_hoisted(s, n - 1, j);
        }
        if let Some(u) = known(s.users, s.members[n - 1]) {
            lemma_with_roles_hoisted(rest, u.roles@, u.roles@.len() as int, k);
        }
    }
}

/// The section of a role has its name for a title and lists those members who
/// are here and lead with the role, below the sections of the roles before it.
pub proof fn role_sections_list_who_leads_with_the_role(
    s: Screen,
    roles: Seq<Hoisted>,
    n: int,
    id: UserId,
)
    requires
        0 < n <= roles.len(),
    ensures
        ({
            let role = roles[n - 1].role;
            let ids = s.members.filter(led_by(s, role.id));
            let above = role_sections(s, roles, n - 1);
            let all = role_sections(s, roles, n);
            &&& ids.contains(id) <==> s.members.contains(id) && is_here(s.users, id) && lead_role(
                s,
                id,
            ) is Some && lead_role(s, id)->Some_0.id == role.id
            &&& all.take(above.len() as int) == above
            &&& ids.len() == 0 ==> all == above
            &&& ids.len() > 0 ==> all.skip(all.len() - ids.len()) == member_lines(s, ids)
            &&& ids.len() > 0 ==> all[all.len() - ids.len() - 1][0].text == " "@ + uppercase_text(
                role.name@,
            ) + " \u{2014} "@ + decimal_nat(ids.len())
        }),
{
    let role = roles[n - 1].role;
    let ids = s.members.filter(led_by(s, role.id));
    let above = role_sections(s, roles, n - 1);
    let title = " "@ + uppercase_text(role.name@) + " \u{2014} "@ + decimal_nat(ids.len());
    lemma_filter_contains(s.members, led_by(s, role.id));
    sections_stand_below_each_other(above, title, member_lines(s, ids), s.theme);
    if ids.len() > 0 {
        sections_list_their_members(s, above, uppercase_text(role.name@), ids, 0);
    }
    assert(above.take(above.len() as int) =~= above);
}

} // verus!
