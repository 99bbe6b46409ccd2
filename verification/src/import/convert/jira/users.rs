//! The users that issues refer to.

use vstd::prelude::*;

use crate::export::types::ExportUser;
use crate::import::convert::adf;
use crate::import::convert::common::{self, add_text, det, det_id, or_if_empty, with_text};
use crate::import::convert::jira::{
    JiraAttachment, JiraComment, JiraIssue, JiraUser, NS_JIRA,
};
use crate::json::{self, Json};
use crate::order::{self, Key, KeyView};
use crate::text;

verus! {

/// What a reference to a user says.
pub struct Person {
    pub account: Seq<char>,
    pub name: Seq<char>,
    pub email: Option<Seq<char>>,
}

pub open spec fn person(u: JiraUser) -> Person {
    Person {
        account: u.account_id@,
        name: u.display_name@,
        email: text::opt_text(u.email_address),
    }
}

pub open spec fn persons(v: Seq<JiraUser>) -> Seq<Person> {
    v.map_values(|u: JiraUser| person(u))
}

/// The person, where there is one.
pub open spec fn just_person(o: Option<JiraUser>) -> Seq<Person> {
    match o {
        Some(u) => seq![person(u)],
        None => seq![],
    }
}

// ---------------------------------------------------------------------------
// Mentions
// ---------------------------------------------------------------------------

/// `s` without the `@` at its start.
pub open spec fn without_ats(s: Seq<char>) -> Seq<char>
    decreases s.len(),
{
    if s.len() > 0 && s[0] == '@' {
        without_ats(s.skip(1))
    } else {
        s
    }
}

/// Whom a node mentions itself.
pub open spec fn own_mention(n: Json) -> Seq<Person> {
    match json::get(n, "attrs"@) {
        Some(a) => if json::as_text(json::get(n, "type"@)) == Some("mention"@) && json::text_under(
            a,
            "id"@,
        ).len() > 0 {
            seq![
                Person {
                    account: json::text_under(a, "id"@),
                    name: without_ats(json::text_under(a, "text"@)),
                    email: None,
                },
            ]
        } else {
            seq![]
        },
        None => seq![],
    }
}

/// Whom an ADF node mentions, itself and in its content.
pub open spec fn mentions(n: Json) -> Seq<Person>
    decreases n, 0nat,
{
    if adf::has_children(n) {
        proof {
            json::lemma_items_smaller(n, "content"@);
        }
        own_mention(n) + all_mentions(adf::children(n))
    } else {
        own_mention(n)
    }
}

/// Whom the nodes mention, one after the other.
pub open spec fn all_mentions(v: Seq<Json>) -> Seq<Person>
    decreases v, 1nat,
{
    if v.len() == 0 {
        seq![]
    } else {
        proof {
            assert(decreases_to!(v => v.drop_last()));
            assert(decreases_to!(v => v[v.len() - 1]));
        }
        all_mentions(v.drop_last()) + mentions(v[v.len() - 1])
    }
}

fn strip_ats(s: &str) -> (r: String)
    ensures
        r@ == without_ats(s@),
{
    let chars = text::to_chars(s);
    let ghost all = s@;
    let len: usize = chars.len();
    let mut i: usize = 0;
    assert(all.skip(0) =~= all);
    while i < len && chars[i] == '@'
        invariant
            i <= len,
            len == all.len(),
            chars@ == all,
            without_ats(all) == without_ats(all.skip(i as int)),
        decreases len - i,
    {
        assert(all.skip(i as int).skip(1) =~= all.skip(i + 1));
        i = i + 1;
    }
    assert(all.skip(i as int) =~= all.subrange(i as int, len as int));
    text::to_text(vstd::slice::slice_subrange(chars.as_slice(), i, len))
}

fn record(out: &mut Vec<JiraUser>, account: &str, name: &str, email: &Option<String>)
    ensures
        persons(final(out)@) == persons(old(out)@).push(
            (Person { account: account@, name: name@, email: text::opt_text(*email) }),
        ),
{
    let ghost before = out@;
    let u = JiraUser {
        account_id: account.to_owned(),
        display_name: name.to_owned(),
        email_address: email.clone(),
    };
    let ghost p = person(u);
    out.push(u);
    assert(persons(out@) =~= persons(before).push(p));
}

fn record_own_mention(n: &Json, out: &mut Vec<JiraUser>)
    ensures
        persons(final(out)@) == persons(old(out)@) + own_mention(*n),
{
    let ghost before = persons(out@);
    assert(before + seq![] =~= before);
    let is_mention = match n.get("type") {
        Some(t) => match t.as_str() {
            Some(s) => text::str_eq(s, "mention"),
            None => false,
        },
        None => false,
    };
    if let Some(attrs) = n.get("attrs") {
        let id = attrs.str_under("id");
        if is_mention && !id.is_empty() {
            let name = strip_ats(attrs.str_under("text"));
            record(out, id, name.as_str(), &None);
            assert(persons(out@) =~= before + own_mention(*n));
        }
    }
}

/// Records whom an ADF node mentions.
pub fn collect_mention_users(n: &Json, out: &mut Vec<JiraUser>)
    ensures
        persons(final(out)@) == persons(old(out)@) + mentions(*n),
    decreases n, 0nat,
{
    let ghost start = persons(out@);
    record_own_mention(n, out);
    match adf::children_of(n) {
        None => {},
        Some(kids) => {
            let ghost head = own_mention(*n);
            let mut i: usize = 0;
            assert(kids@.take(0) =~= seq![]);
            assert(start + (head + all_mentions(kids@.take(0))) =~= start + head);
            while i < kids.len()
                invariant
                    i <= kids@.len(),
                    json::get(*n, "content"@) == Some(Json::Array(*kids)),
                    persons(out@) == start + (head + all_mentions(kids@.take(i as int))),
                decreases kids@.len() - i,
            {
                let ghost before = kids@.take(i as int);
                proof {
                    adf::lemma_children_smaller(*n, *kids);
                    assert(decreases_to!(*kids => kids@));
                    assert(decreases_to!(kids@ => kids@[i as int]));
                    assert(kids@.take(i + 1).drop_last() =~= before);
                }
                collect_mention_users(&kids[i], out);
                assert(start + (head + all_mentions(before)) + mentions(kids@[i as int]) =~= start
                    + (head + (all_mentions(before) + mentions(kids@[i as int]))));
                i = i + 1;
            }
            assert(kids@.take(kids@.len() as int) =~= kids@);
        },
    }
}

// ---------------------------------------------------------------------------
// All references
// ---------------------------------------------------------------------------

/// The authors of the comments.
pub open spec fn comment_authors(v: Seq<JiraComment>) -> Seq<Person>
    decreases v.len(),
{
    if v.len() == 0 {
        seq![]
    } else {
        comment_authors(v.drop_last()) + just_person(v.last().author)
    }
}

/// The authors of the attachments.
pub open spec fn attachment_authors(v: Seq<JiraAttachment>) -> Seq<Person>
    decreases v.len(),
{
    if v.len() == 0 {
        seq![]
    } else {
        attachment_authors(v.drop_last()) + just_person(v.last().author)
    }
}

/// Whom a document mentions, where there is one.
pub open spec fn mentioned_in(o: Option<Json>) -> Seq<Person> {
    match o {
        Some(n) => mentions(n),
        None => seq![],
    }
}

/// Whom the bodies of the comments mention.
pub open spec fn comment_mentions(v: Seq<JiraComment>) -> Seq<Person>
    decreases v.len(),
{
    if v.len() == 0 {
        seq![]
    } else {
        comment_mentions(v.drop_last()) + mentioned_in(v.last().body)
    }
}

/// Everyone an issue refers to.
pub open spec fn issue_persons(i: JiraIssue) -> Seq<Person> {
    let f = i.fields;
    just_person(f.assignee) + just_person(f.reporter) + just_person(f.creator) + comment_authors(
        f.comment.comments@,
    ) + attachment_authors(f.attachment@) + mentioned_in(f.description) + comment_mentions(
        f.comment.comments@,
    )
}

/// Everyone the issues refer to, in order.
pub open spec fn all_persons(v: Seq<JiraIssue>) -> Seq<Person>
    decreases v.len(),
{
    if v.len() == 0 {
        seq![]
    } else {
        all_persons(v.drop_last()) + issue_persons(v.last())
    }
}

fn record_user(o: &Option<JiraUser>, out: &mut Vec<JiraUser>)
    ensures
        persons(final(out)@) == persons(old(out)@) + just_person(*o),
{
    let ghost before = persons(out@);
    match o {
        Some(u) => {
            record(out, u.account_id.as_str(), u.display_name.as_str(), &u.email_address);
            assert(persons(out@) =~= before + just_person(*o));
        },
        None => {
            assert(before + seq![] =~= before);
        },
    }
}

fn record_comment_authors(v: &Vec<JiraComment>, out: &mut Vec<JiraUser>)
    ensures
        persons(final(out)@) == persons(old(out)@) + comment_authors(v@),
{
    let ghost start = persons(out@);
    let mut i: usize = 0;
    assert(v@.take(0) =~= seq![]);
    assert(start + seq![] =~= start);
    while i < v.len()
        invariant
            i <= v@.len(),
            persons(out@) == start + comment_authors(v@.take(i as int)),
        decreases v@.len() - i,
    {
        assert(v@.take(i + 1).drop_last() =~= v@.take(i as int));
        record_user(&v[i].author, out);
        assert(persons(out@) =~= start + comment_authors(v@.take(i + 1)));
        i = i + 1;
    }
    assert(v@.take(v@.len() as int) =~= v@);
}

fn record_attachment_authors(v: &Vec<JiraAttachment>, out: &mut Vec<JiraUser>)
    ensures
        persons(final(out)@) == persons(old(out)@) + attachment_authors(v@),
{
    let ghost start = persons(out@);
    let mut i: usize = 0;
    assert(v@.take(0) =~= seq![]);
    assert(start + seq![] =~= start);
    while i < v.len()
        invariant
            i <= v@.len(),
            persons(out@) == start + attachment_authors(v@.take(i as int)),
        decreases v@.len() - i,
    {
        assert(v@.take(i + 1).drop_last() =~= v@.take(i as int));
        record_user(&v[i].author, out);
        assert(persons(out@) =~= start + attachment_authors(v@.take(i + 1)));
        i = i + 1;
    }
    assert(v@.take(v@.len() as int) =~= v@);
}

fn record_mentions(o: &Option<Json>, out: &mut Vec<JiraUser>)
    ensures
        persons(final(out)@) == persons(old(out)@) + mentioned_in(*o),
{
    let ghost before = persons(out@);
    match o {
        Some(n) => collect_mention_users(n, out),
        None => {
            assert(before + seq![] =~= before);
        },
    }
}

fn record_comment_mentions(v: &Vec<JiraComment>, out: &mut Vec<JiraUser>)
    ensures
        persons(final(out)@) == persons(old(out)@) + comment_mentions(v@),
{
    let ghost start = persons(out@);
    let mut i: usize = 0;
    assert(v@.take(0) =~= seq![]);
    assert(start + seq![] =~= start);
    while i < v.len()
        invariant
            i <= v@.len(),
            persons(out@) == start + comment_mentions(v@.take(i as int)),
        decreases v@.len() - i,
    {
        assert(v@.take(i + 1).drop_last() =~= v@.take(i as int));
        record_mentions(&v[i].body, out);
        assert(persons(out@) =~= start + comment_mentions(v@.take(i + 1)));
        i = i + 1;
    }
    assert(v@.take(v@.len() as int) =~= v@);
}

fn record_issue(i: &JiraIssue, out: &mut Vec<JiraUser>)
    ensures
        persons(final(out)@) == persons(old(out)@) + issue_persons(*i),
{
    let ghost start = persons(out@);
    let f = &i.fields;
    record_user(&f.assignee, out);
    record_user(&f.reporter, out);
    record_user(&f.creator, out);
    record_comment_authors(&f.comment.comments, out);
    record_attachment_authors(&f.attachment, out);
    record_mentions(&f.description, out);
    record_comment_mentions(&f.comment.comments, out);
    assert(persons(out@) =~= start + issue_persons(*i));
}

fn record_all(v: &[JiraIssue]) -> (r: Vec<JiraUser>)
    ensures
        persons(r@) == all_persons(v@),
{
    let mut out: Vec<JiraUser> = Vec::new();
    let mut i: usize = 0;
    assert(v@.take(0) =~= seq![]);
    assert(persons(out@) =~= seq![]);
    while i < v.len()
        invariant
            i <= v@.len(),
            persons(out@) == all_persons(v@.take(i as int)),
        decreases v@.len() - i,
    {
        assert(v@.take(i + 1).drop_last() =~= v@.take(i as int));
        record_issue(&v[i], &mut out);
        i = i + 1;
    }
    assert(v@.take(v@.len() as int) =~= v@);
    out
}

// ---------------------------------------------------------------------------
// Users
// ---------------------------------------------------------------------------

/// The accounts, each once.
pub open spec fn accounts(v: Seq<Person>) -> Seq<Seq<char>>
    decreases v.len(),
{
    if v.len() == 0 {
        seq![]
    } else {
        let rest = accounts(v.drop_last());
        if v.last().account.len() == 0 {
            rest
        } else {
            with_text(rest, v.last().account)
        }
    }
}

/// The first name of an account that is not empty.
pub open spec fn name_of(v: Seq<Person>, account: Seq<char>) -> Seq<char>
    decreases v.len(),
{
    if v.len() == 0 {
        seq![]
    } else {
        let name = name_of(v.drop_last(), account);
        if name.len() == 0 && v.last().account == account {
            v.last().name
        } else {
            name
        }
    }
}

/// The first address of an account.
pub open spec fn email_of(v: Seq<Person>, account: Seq<char>) -> Option<Seq<char>>
    decreases v.len(),
{
    if v.len() == 0 {
        None
    } else {
        let email = email_of(v.drop_last(), account);
        if email is None && v.last().account == account {
            v.last().email
        } else {
            email
        }
    }
}

/// Whether `u` is the export of an account.
pub open spec fn user_is(u: ExportUser, v: Seq<Person>, account: Seq<char>) -> bool {
    &&& u.id@ == det(NS_JIRA, "user"@, account)
    &&& u.display_name@ == or_if_empty(name_of(v, account), "Unknown user"@)
    &&& text::opt_text(u.email) == email_of(v, account)
}

pub open spec fn account_key(s: Seq<char>) -> KeyView {
    KeyView { rank: 0, by: s }
}

/// The order of the accounts: that of their texts.
pub open spec fn account_order(v: Seq<Seq<char>>) -> Seq<int> {
    order::order_of(v.map_values(|s: Seq<char>| account_key(s)))
}

/// Whether the users are the accounts that are referred to, in the order of their
/// texts.
pub open spec fn users_are(out: Seq<ExportUser>, v: Seq<Person>) -> bool {
    let all = accounts(v);
    &&& out.len() == all.len()
    &&& forall|i: int|
        0 <= i < out.len() ==> user_is(#[trigger] out[i], v, all[account_order(all)[i]])
}

fn distinct_accounts(v: &Vec<JiraUser>) -> (r: Vec<String>)
    ensures
        text::texts(r@) == accounts(persons(v@)),
{
    let ghost all = persons(v@);
    let mut out: Vec<String> = Vec::new();
    let mut i: usize = 0;
    assert(all.take(0) =~= seq![]);
    assert(text::texts(out@) =~= seq![]);
    while i < v.len()
        invariant
            i <= v@.len(),
            all == persons(v@),
            text::texts(out@) == accounts(all.take(i as int)),
        decreases v@.len() - i,
    {
        assert(all.take(i + 1).drop_last() =~= all.take(i as int));
        assert(all.take(i + 1).last() == person(v@[i as int]));
        if !v[i].account_id.as_str().is_empty() {
            add_text(&mut out, v[i].account_id.as_str());
        }
        i = i + 1;
    }
    assert(all.take(all.len() as int) =~= all);
    out
}

fn export_user(v: &Vec<JiraUser>, account: &str) -> (r: ExportUser)
    ensures
        user_is(r, persons(v@), account@),
{
    let ghost all = persons(v@);
    let mut name = "".to_owned();
    let mut email: Option<String> = None;
    let mut i: usize = 0;
    proof {
        assert(all.take(0) =~= seq![]);
        reveal_strlit("");
        assert(name@ =~= seq![]);
    }
    while i < v.len()
        invariant
            i <= v@.len(),
            all == persons(v@),
            name@ == name_of(all.take(i as int), account@),
            text::opt_text(email) == email_of(all.take(i as int), account@),
        decreases v@.len() - i,
    {
        assert(all.take(i + 1).drop_last() =~= all.take(i as int));
        assert(all.take(i + 1).last() == person(v@[i as int]));
        if text::str_eq(v[i].account_id.as_str(), account) {
            if name.as_str().is_empty() {
                name = v[i].display_name.clone();
            }
            if email.is_none() {
                email = v[i].email_address.clone();
            }
        }
        i = i + 1;
    }
    assert(all.take(all.len() as int) =~= all);
    ExportUser {
        id: det_id(NS_JIRA, "user", account),
        display_name: common::text_or_if_empty(name.as_str(), "Unknown user").to_owned(),
        email,
    }
}

/// Collects every account that the issues refer to, ordered by account.
pub fn collect_users(issues: &[JiraIssue]) -> (r: Vec<ExportUser>)
    ensures
        users_are(r@, all_persons(issues@)),
{
    let refs = record_all(issues);
    let list = distinct_accounts(&refs);
    let ghost all = accounts(persons(refs@));
    let mut keys: Vec<Key> = Vec::new();
    let mut i: usize = 0;
    while i < list.len()
        invariant
            i <= list@.len(),
            keys@.len() == i,
            forall|k: int|
                0 <= k < i ==> (#[trigger] keys@[k]).rank == 0 && keys@[k].by@ == list@[k]@,
        decreases list@.len() - i,
    {
        keys.push(Key { rank: 0, by: list[i].clone() });
        i = i + 1;
    }
    proof {
        assert(text::texts(list@).len() == list@.len());
        assert(order::key_views(keys@) =~= all.map_values(|s: Seq<char>| account_key(s))) by {
            assert forall|k: int| 0 <= k < list@.len() implies all[k] == (
            #[trigger] list@[k])@ by {
                assert(text::texts(list@)[k] == list@[k]@);
            }
        }
        order::lemma_order(order::key_views(keys@));
    }
    let order = order::sort_order(&keys);
    assert(order::ints(order@).len() == order@.len());
    let mut out: Vec<ExportUser> = Vec::new();
    let mut n: usize = 0;
    while n < order.len()
        invariant
            n <= order@.len(),
            out@.len() == n,
            all == text::texts(list@),
            all == accounts(persons(refs@)),
            order::ints(order@) == account_order(all),
            order@.len() == list@.len(),
            forall|k: int|
                0 <= k < order@.len() ==> (#[trigger] order::ints(order@)[k]) < list@.len(),
            forall|k: int|
                0 <= k < n ==> user_is(
                    #[trigger] out@[k],
                    persons(refs@),
                    all[account_order(all)[k]],
                ),
        decreases order@.len() - n,
    {
        assert(order::ints(order@)[n as int] == order@[n as int]);
        assert(all[order@[n as int] as int] == list@[order@[n as int] as int]@);
        out.push(export_user(&refs, list[order[n]].as_str()));
        n = n + 1;
    }
    out
}

} // verus!
