//! Images and attachments.

use vstd::prelude::*;
use vstd::slice::slice_subrange;
use vstd::string::StringExecFns;

use crate::export::types::ExportAttachment;
use crate::import::convert::common::{
    self, AttachmentView, Attachments, Gathered, det, det_id, route_of,
};
use crate::import::convert::jira::{JiraAttachment, JiraUser, NS_JIRA};
use crate::text;

verus! {

// ---------------------------------------------------------------------------
// Attachments
// ---------------------------------------------------------------------------

/// The id of an attachment.
pub open spec fn attachment_id(a: JiraAttachment) -> Seq<char> {
    det(NS_JIRA, "attachment"@, a.id@)
}

/// The account of a user, where there is one with an account.
pub open spec fn account_of(o: Option<JiraUser>) -> Option<Seq<char>> {
    match o {
        Some(u) => if u.account_id@.len() == 0 {
            None
        } else {
            Some(u.account_id@)
        },
        None => None,
    }
}

/// The text, where there is one that is not empty.
pub open spec fn filled(o: Option<String>) -> Option<Seq<char>> {
    match o {
        Some(s) => if s@.len() == 0 {
            None
        } else {
            Some(s@)
        },
        None => None,
    }
}

/// The text or the other one.
pub open spec fn or_other(o: Option<Seq<char>>, other: Seq<char>) -> Seq<char> {
    match o {
        Some(s) => s,
        None => other,
    }
}

/// What is exported of an attachment. Where its author or its time is not known,
/// those given stand in.
pub open spec fn exported(a: JiraAttachment, by: Seq<char>, now: Seq<char>) -> AttachmentView {
    AttachmentView {
        id: attachment_id(a),
        filename: common::or_if_empty(a.filename@, "attachment"@),
        content_type: or_other(filled(a.mime_type), "application/octet-stream"@),
        size_bytes: a.size as int,
        uploaded_by: or_other(common::opt_det(NS_JIRA, "user"@, account_of(a.author)), by),
        uploaded_at: or_other(text::opt_text(a.created), now),
        document_id: None,
        orphaned: false,
    }
}

/// Whether an attachment has been gathered.
pub open spec fn has_attachment(g: Gathered, id: Seq<char>) -> bool {
    exists|i: int| 0 <= i < g.list.len() && (#[trigger] g.list[i]).id == id
}

/// What has been gathered, with one more attachment, if it is new.
pub open spec fn minted(g: Gathered, a: JiraAttachment, by: Seq<char>, now: Seq<char>) -> Gathered {
    let id = attachment_id(a);
    if has_attachment(g, id) {
        g
    } else {
        Gathered {
            list: g.list.push(exported(a, by, now)),
            urls: match filled(a.content) {
                Some(u) => g.urls.insert(id, u),
                None => g.urls,
            },
        }
    }
}

/// What has been gathered, with more attachments.
pub open spec fn all_minted(
    g: Gathered,
    v: Seq<JiraAttachment>,
    by: Seq<char>,
    now: Seq<char>,
) -> Gathered
    decreases v.len(),
{
    if v.len() == 0 {
        g
    } else {
        all_minted(minted(g, v[0], by, now), v.skip(1), by, now)
    }
}

/// Attachments are gathered one list after the other.
pub proof fn lemma_minted_append(
    g: Gathered,
    a: Seq<JiraAttachment>,
    b: Seq<JiraAttachment>,
    by: Seq<char>,
    now: Seq<char>,
)
    ensures
        all_minted(g, a + b, by, now) == all_minted(all_minted(g, a, by, now), b, by, now),
    decreases a.len(),
{
    if a.len() == 0 {
        assert(a + b =~= b);
    } else {
        assert((a + b).skip(1) =~= a.skip(1) + b);
        lemma_minted_append(minted(g, a[0], by, now), a.skip(1), b, by, now);
    }
}

fn is_gathered(atts: &Attachments, id: &str) -> (r: bool)
    ensures
        r == has_attachment(atts@, id@),
{
    let ghost all = atts@.list;
    let mut i: usize = 0;
    while i < atts.list.len()
        invariant
            i <= atts.list@.len(),
            all == atts@.list,
            forall|k: int| 0 <= k < i ==> (#[trigger] all[k]).id != id@,
        decreases atts.list@.len() - i,
    {
        assert(all[i as int].id == atts.list@[i as int].id@);
        if text::str_eq(atts.list[i].id.as_str(), id) {
            return true;
        }
        i = i + 1;
    }
    false
}

/// Gathers an attachment, if it is new, with the URL of its content. Gives its id.
pub fn mint_attachment(a: &JiraAttachment, atts: &mut Attachments, by: &str, now: &str) -> (r: String)
    ensures
        r@ == attachment_id(*a),
        final(atts)@ == minted(old(atts)@, *a, by@, now@),
{
    let id = det_id(NS_JIRA, "attachment", a.id.as_str());
    if !is_gathered(atts, id.as_str()) {
        let filename = common::text_or_if_empty(a.filename.as_str(), "attachment").to_owned();
        let content_type = match &a.mime_type {
            Some(m) => common::text_or_if_empty(m.as_str(), "application/octet-stream").to_owned(),
            None => "application/octet-stream".to_owned(),
        };
        let uploaded_by = match &a.author {
            Some(u) => if u.account_id.as_str().is_empty() {
                by.to_owned()
            } else {
                det_id(NS_JIRA, "user", u.account_id.as_str())
            },
            None => by.to_owned(),
        };
        let uploaded_at = match &a.created {
            Some(c) => c.clone(),
            None => now.to_owned(),
        };
        let e = ExportAttachment {
            id: id.clone(),
            filename,
            content_type,
            size_bytes: a.size,
            uploaded_by,
            uploaded_at,
            document_id: None,
            orphaned: false,
        };
        atts.push(e);
        if let Some(u) = &a.content {
            if !u.as_str().is_empty() {
                atts.put_url(id.clone(), u.clone());
            }
        }
    }
    id
}

/// Gathers attachments.
pub(crate) fn mint_all(v: &Vec<JiraAttachment>, atts: &mut Attachments, by: &str, now: &str)
    ensures
        final(atts)@ == all_minted(old(atts)@, v@, by@, now@),
{
    let ghost goal = all_minted(atts@, v@, by@, now@);
    let mut i: usize = 0;
    assert(v@.skip(0) =~= v@);
    while i < v.len()
        invariant
            i <= v@.len(),
            goal == all_minted(atts@, v@.skip(i as int), by@, now@),
        decreases v@.len() - i,
    {
        assert(v@.skip(i as int).skip(1) =~= v@.skip(i + 1));
        let _ = mint_attachment(&v[i], atts, by, now);
        i = i + 1;
    }
}

/// However often it is referred to, an attachment is exported once.
pub proof fn lemma_minted_once(g: Gathered, v: Seq<JiraAttachment>, by: Seq<char>, now: Seq<char>)
    requires
        forall|i: int, j: int|
            0 <= i < j < g.list.len() ==> (#[trigger] g.list[i]).id != (#[trigger] g.list[j]).id,
    ensures
        ({
            let h = all_minted(g, v, by, now);
            &&& forall|i: int, j: int|
                0 <= i < j < h.list.len() ==> (#[trigger] h.list[i]).id != (#[trigger] h.list[j]).id
            &&& forall|i: int| 0 <= i < v.len() ==> has_attachment(h, attachment_id(#[trigger] v[i]))
            &&& forall|k: Seq<char>| has_attachment(g, k) ==> #[trigger] has_attachment(h, k)
        }),
    decreases v.len(),
{
    if v.len() > 0 {
        let m = minted(g, v[0], by, now);
        assert forall|i: int, j: int| 0 <= i < j < m.list.len() implies (#[trigger] m.list[i]).id
            != (#[trigger] m.list[j]).id by {
            if j == g.list.len() {
                assert(g.list[i].id != attachment_id(v[0]));
            }
        }
        lemma_minted_once(m, v.skip(1), by, now);
        let h = all_minted(g, v, by, now);
        assert(has_attachment(m, attachment_id(v[0]))) by {
            if !has_attachment(g, attachment_id(v[0])) {
                assert(m.list[g.list.len() as int].id == attachment_id(v[0]));
            }
        }
        assert forall|k: Seq<char>| has_attachment(g, k) implies #[trigger] has_attachment(h, k) by {
            let i = choose|i: int| 0 <= i < g.list.len() && (#[trigger] g.list[i]).id == k;
            assert(m.list[i].id == k);
            assert(has_attachment(m, k));
        }
        assert forall|i: int| 0 <= i < v.len() implies has_attachment(
            h,
            attachment_id(#[trigger] v[i]),
        ) by {
            if i > 0 {
                assert(v.skip(1)[i - 1] == v[i]);
            }
        }
    }
}

// ---------------------------------------------------------------------------
// Images
// ---------------------------------------------------------------------------

/// What stands between the label of an image and its media id.
pub open spec fn needle() -> Seq<char> {
    "](jira-media:"@
}

/// The last position at which `![` stands before `n`.
pub open spec fn image_before(s: Seq<char>, n: int) -> Option<int>
    decreases n,
{
    if n < 2 {
        None
    } else if s[n - 2] == '!' && s[n - 1] == '[' {
        Some(n - 2)
    } else {
        image_before(s, n - 1)
    }
}

/// The label of the image that `s` ends in.
pub open spec fn alt_of(s: Seq<char>) -> Seq<char> {
    match image_before(s, s.len() as int) {
        Some(i) => s.skip(i + 2),
        None => seq![],
    }
}

/// The first attachment whose name is the label.
pub open spec fn named(v: Seq<JiraAttachment>, alt: Seq<char>) -> Option<JiraAttachment>
    decreases v.len(),
{
    if v.len() == 0 {
        None
    } else if v[0].filename@.len() > 0 && v[0].filename@ == alt {
        Some(v[0])
    } else {
        named(v.skip(1), alt)
    }
}

/// The first attachment with the id.
pub open spec fn with_id(v: Seq<JiraAttachment>, id: Seq<char>) -> Option<JiraAttachment>
    decreases v.len(),
{
    if v.len() == 0 {
        None
    } else if v[0].id@ == id {
        Some(v[0])
    } else {
        with_id(v.skip(1), id)
    }
}

/// The attachment that an image shows. A media id is not the id of an attachment,
/// but the label of an image is the name of its file: that is tried first.
pub open spec fn shown(v: Seq<JiraAttachment>, alt: Seq<char>, id: Seq<char>) -> Option<JiraAttachment> {
    match named(v, alt) {
        Some(a) => Some(a),
        None => with_id(v, id),
    }
}

/// The first image of a text: where its URL starts and ends, its label and its media
/// id.
pub struct Image {
    pub start: int,
    pub end: int,
    pub alt: Seq<char>,
    pub id: Seq<char>,
}

/// The first image of a text that refers to media.
pub open spec fn first_image(s: Seq<char>) -> Option<Image> {
    match text::find_of(s, needle()) {
        None => None,
        Some(pos) => {
            let after = s.skip(pos + 2);
            match text::find_char_of(after, ')') {
                None => None,
                Some(close) => Some(
                    Image {
                        start: pos + 2,
                        end: pos + 2 + close,
                        alt: alt_of(s.take(pos)),
                        id: after.subrange(11, close),
                    },
                ),
            }
        },
    }
}

/// An image is part of the text.
pub proof fn lemma_first_image(s: Seq<char>)
    ensures
        first_image(s) matches Some(i) ==> 2 <= i.start && i.start + 11 <= i.end < s.len(),
{
    text::lemma_find_from(s, needle(), 0);
    if let Some(pos) = text::find_of(s, needle()) {
        reveal_strlit("](jira-media:");
        let after = s.skip(pos + 2);
        text::lemma_find_any_from(after, seq![')'], 0);
        if let Some(close) = text::find_char_of(after, ')') {
            assert(seq![')'].contains(after[close]));
            assert(after[close] == ')');
            if close < 11 {
                assert(s.subrange(pos, pos + needle().len())[close + 2] == after[close]);
                assert(needle()[close + 2] != ')');
            }
        }
    }
}

/// Markdown with the media id of each image replaced by the path under which the
/// space serves the attachment it shows, or by nothing where it shows none.
pub open spec fn resolved(s: Seq<char>, v: Seq<JiraAttachment>, space: Seq<char>) -> Seq<char>
    decreases s.len(),
{
    match first_image(s) {
        None => s,
        Some(i) => {
            proof {
                lemma_first_image(s);
            }
            let path = match shown(v, i.alt, i.id) {
                Some(a) => route_of(space, attachment_id(a)),
                None => seq![],
            };
            s.take(i.start) + path + resolved(s.skip(i.end), v, space)
        },
    }
}

/// The attachments that the images show, in order.
pub open spec fn shown_in(s: Seq<char>, v: Seq<JiraAttachment>) -> Seq<JiraAttachment>
    decreases s.len(),
{
    match first_image(s) {
        None => seq![],
        Some(i) => {
            proof {
                lemma_first_image(s);
            }
            let rest = shown_in(s.skip(i.end), v);
            match shown(v, i.alt, i.id) {
                Some(a) => seq![a] + rest,
                None => rest,
            }
        },
    }
}

/// The warning for an image that shows no attachment.
pub open spec fn image_warning(i: Image, key: Seq<char>) -> Seq<char> {
    "issue "@ + key + ": inline media (alt="@ + text::debug_text(i.alt) + ", id="@ + i.id
        + ") had no matching attachment; image left without a source"@
}

/// The warnings for the images, in order.
pub open spec fn image_warnings(s: Seq<char>, v: Seq<JiraAttachment>, key: Seq<char>) -> Seq<
    Seq<char>,
>
    decreases s.len(),
{
    match first_image(s) {
        None => seq![],
        Some(i) => {
            proof {
                lemma_first_image(s);
            }
            let rest = image_warnings(s.skip(i.end), v, key);
            match shown(v, i.alt, i.id) {
                Some(_) => rest,
                None => seq![image_warning(i, key)] + rest,
            }
        },
    }
}

fn find_alt<'a>(s: &'a [char]) -> (r: &'a [char])
    ensures
        r@ == alt_of(s@),
{
    let len: usize = s.len();
    let mut n: usize = len;
    while n >= 2 && !(s[n - 2] == '!' && s[n - 1] == '[')
        invariant
            n <= len,
            len == s@.len(),
            image_before(s@, len as int) == image_before(s@, n as int),
        decreases n,
    {
        n = n - 1;
    }
    if n >= 2 {
        assert(s@.skip(n as int) =~= s@.subrange(n as int, len as int));
        slice_subrange(s, n, len)
    } else {
        assert(s@.subrange(0, 0) =~= seq![]);
        slice_subrange(s, 0, 0)
    }
}

fn find_named<'a>(v: &'a Vec<JiraAttachment>, alt: &[char]) -> (r: Option<&'a JiraAttachment>)
    ensures
        match r {
            Some(a) => named(v@, alt@) == Some(*a),
            None => named(v@, alt@) is None,
        },
{
    let mut i: usize = 0;
    assert(v@.skip(0) =~= v@);
    while i < v.len()
        invariant
            i <= v@.len(),
            named(v@, alt@) == named(v@.skip(i as int), alt@),
        decreases v@.len() - i,
    {
        assert(v@.skip(i as int).skip(1) =~= v@.skip(i + 1));
        let a = &v[i];
        if !a.filename.as_str().is_empty() && text::equals(alt, a.filename.as_str()) {
            return Some(a);
        }
        i = i + 1;
    }
    None
}

fn find_with_id<'a>(v: &'a Vec<JiraAttachment>, id: &[char]) -> (r: Option<&'a JiraAttachment>)
    ensures
        match r {
            Some(a) => with_id(v@, id@) == Some(*a),
            None => with_id(v@, id@) is None,
        },
{
    let mut i: usize = 0;
    assert(v@.skip(0) =~= v@);
    while i < v.len()
        invariant
            i <= v@.len(),
            with_id(v@, id@) == with_id(v@.skip(i as int), id@),
        decreases v@.len() - i,
    {
        assert(v@.skip(i as int).skip(1) =~= v@.skip(i + 1));
        let a = &v[i];
        if text::equals(id, a.id.as_str()) {
            return Some(a);
        }
        i = i + 1;
    }
    None
}

fn find_shown<'a>(v: &'a Vec<JiraAttachment>, alt: &[char], id: &[char]) -> (r: Option<
    &'a JiraAttachment,
>)
    ensures
        match r {
            Some(a) => shown(v@, alt@, id@) == Some(*a),
            None => shown(v@, alt@, id@) is None,
        },
{
    match find_named(v, alt) {
        Some(a) => Some(a),
        None => find_with_id(v, id),
    }
}

/// Replaces the media ids of images in Markdown. An image that shows an attachment
/// of the issue gets the path under which the space serves it, and the attachment is
/// gathered; one that shows none is left without a source and warned of.
pub fn resolve_media(
    markdown: &str,
    issue_key: &str,
    issue_attachments: &Vec<JiraAttachment>,
    space_id: &str,
    atts: &mut Attachments,
    by: &str,
    now: &str,
    warnings: &mut Vec<String>,
) -> (r: String)
    ensures
        r@ == resolved(markdown@, issue_attachments@, space_id@),
        final(atts)@ == all_minted(
            old(atts)@,
            shown_in(markdown@, issue_attachments@),
            by@,
            now@,
        ),
        text::texts(final(warnings)@) == text::texts(old(warnings)@) + image_warnings(
            markdown@,
            issue_attachments@,
            issue_key@,
        ),
{
    let ghost v = issue_attachments@;
    let ghost goal = resolved(markdown@, v, space_id@);
    let ghost all = all_minted(atts@, shown_in(markdown@, v), by@, now@);
    let ghost told = text::texts(warnings@) + image_warnings(markdown@, v, issue_key@);
    let chars = text::to_chars(markdown);
    let mut rest: &[char] = chars.as_slice();
    let mut out = String::new();
    assert(out@ + goal =~= goal);
    loop
        invariant
            v == issue_attachments@,
            goal == out@ + resolved(rest@, v, space_id@),
            all == all_minted(atts@, shown_in(rest@, v), by@, now@),
            told == text::texts(warnings@) + image_warnings(rest@, v, issue_key@),
        ensures
            goal == out@ + rest@,
            all == atts@,
            told == text::texts(warnings@),
        decreases rest@.len(),
    {
        let ghost was = rest@;
        let found = text::find(rest, "](jira-media:");
        let pos: usize = match found {
            Some(p) => p,
            None => {
                assert(text::texts(warnings@) + seq![] =~= text::texts(warnings@));
                break;
            },
        };
        proof {
            reveal_strlit("](jira-media:");
            lemma_first_image(was);
        }
        let len: usize = rest.len();
        let after = slice_subrange(rest, pos + 2, len);
        assert(after@ =~= was.skip(pos + 2));
        let close: usize = match text::find_char(after, ')') {
            Some(c) => c,
            None => {
                assert(text::texts(warnings@) + seq![] =~= text::texts(warnings@));
                break;
            },
        };
        let ghost image = first_image(was)->0;
        let id = slice_subrange(after, 11, close);
        let before = slice_subrange(rest, 0, pos);
        assert(before@ =~= was.take(pos as int));
        let alt = find_alt(before);
        let ghost emitted = out@;
        let ghost g = atts@;
        let ghost w = text::texts(warnings@);
        let head = text::to_text(slice_subrange(rest, 0, pos + 2));
        assert(head@ =~= was.take(pos + 2));
        out.append(head.as_str());
        let ghost next = was.skip(image.end);
        match find_shown(issue_attachments, alt, id) {
            Some(a) => {
                let att_id = mint_attachment(a, atts, by, now);
                let path = common::route(space_id, att_id.as_str());
                out.append(path.as_str());
                proof {
                    let more = shown_in(next, v);
                    assert(shown_in(was, v) == seq![*a] + more);
                    assert((seq![*a] + more).skip(1) =~= more);
                }
            },
            None => {
                let alt_text = text::to_text(alt);
                let id_text = text::to_text(id);
                let warning = "issue ".to_owned().concat(issue_key).concat(
                    ": inline media (alt=",
                ).concat(text::debug(alt_text.as_str()).as_str()).concat(", id=").concat(
                    id_text.as_str(),
                ).concat(") had no matching attachment; image left without a source");
                let ghost wv = warning@;
                warnings.push(warning);
                proof {
                    assert(wv == image_warning(image, issue_key@));
                    assert(text::texts(warnings@) =~= w.push(wv));
                    let more = image_warnings(next, v, issue_key@);
                    assert(w + (seq![wv] + more) =~= w.push(wv) + more);
                }
            },
        }
        rest = slice_subrange(after, close, after.len());
        proof {
            assert(rest@ =~= next);
            assert(emitted + resolved(was, v, space_id@) =~= out@ + resolved(next, v, space_id@));
        }
    }
    let tail = text::to_text(rest);
    out.append(tail.as_str());
    out
}

} // verus!
