//! Uploaded files in Markdown.

use vstd::prelude::*;
use vstd::slice::slice_subrange;
use vstd::string::StringExecFns;

use crate::export::types::ExportAttachment;
use crate::import::convert::common::{
    self, AttachmentView, Attachments, Gathered, attachment_view, det, det_id, route_of,
};
use crate::import::convert::linear::NS_LINEAR;
use crate::text;

verus! {

/// How the URL of an uploaded file starts.
pub open spec fn needle() -> Seq<char> {
    "https://uploads.linear.app/"@
}

/// Whether `c` ends a URL in Markdown.
pub open spec fn ends_url(c: char) -> bool {
    text::is_white(c) || c == ')' || c == ']' || c == '"' || c == '\'' || c == '<' || c == '>'
}

/// The length of the URL at the start of `s`.
pub open spec fn url_len(s: Seq<char>) -> int
    decreases s.len(),
{
    if s.len() == 0 || ends_url(s[0]) {
        0
    } else {
        1 + url_len(s.skip(1))
    }
}

fn find_url_end(s: &[char]) -> (r: usize)
    ensures
        r == url_len(s@),
        r <= s@.len(),
{
    let mut i: usize = 0;
    assert(s@.skip(0) =~= s@);
    while i < s.len() && !(text::char_is_white(s[i]) || s[i] == ')' || s[i] == ']' || s[i] == '"'
        || s[i] == '\'' || s[i] == '<' || s[i] == '>')
        invariant
            i <= s@.len(),
            url_len(s@) == i + url_len(s@.skip(i as int)),
        decreases s@.len() - i,
    {
        assert(s@.skip(i as int).skip(1) =~= s@.skip(i + 1));
        i = i + 1;
    }
    i
}

// ---------------------------------------------------------------------------
// File names
// ---------------------------------------------------------------------------

/// The label of the Markdown link or image that `emitted` ends in the middle of,
/// just before its URL.
pub open spec fn label_of(emitted: Seq<char>) -> Option<Seq<char>> {
    if !text::ends_with_char(emitted, '(') {
        None
    } else {
        let t = emitted.drop_last();
        match text::rfind_char_of(t, '[') {
            None => None,
            Some(b) => {
                let inner = t.skip(b + 1);
                if b > 0 && t[b - 1] == '[' {
                    None
                } else if !text::ends_with_char(inner, ']') {
                    None
                } else {
                    let label = text::trim_of(inner.drop_last());
                    if label.len() == 0 {
                        None
                    } else {
                        Some(label)
                    }
                }
            },
        }
    }
}

/// If the text ends with the opener of a link `[text](` or of an image `![alt](`,
/// gives the text of its label: where the URL ends in a bare UUID, that is the only
/// real file name.
pub fn preceding_label(emitted: &str) -> (r: Option<String>)
    ensures
        text::opt_text(r) == label_of(emitted@),
{
    let chars = text::to_chars(emitted);
    let len: usize = chars.len();
    if len == 0 || chars[len - 1] != '(' {
        return None;
    }
    let t = slice_subrange(chars.as_slice(), 0, len - 1);
    assert(t@ =~= emitted@.drop_last());
    match text::rfind_char(t, '[') {
        None => None,
        Some(b) => {
            if b > 0 && t[b - 1] == '[' {
                return None;
            }
            let inner = slice_subrange(t, b + 1, t.len());
            assert(inner@ =~= t@.skip(b + 1));
            let n: usize = inner.len();
            if n == 0 || inner[n - 1] != ']' {
                return None;
            }
            let stripped = slice_subrange(inner, 0, n - 1);
            assert(stripped@ =~= inner@.drop_last());
            let label = text::trim(stripped);
            if label.len() == 0 {
                None
            } else {
                Some(text::to_text(label))
            }
        },
    }
}

/// Whether a name ends in a short extension of letters and digits, after a stem.
pub open spec fn extension_ok(name: Seq<char>) -> bool {
    match text::rfind_char_of(name, '.') {
        None => false,
        Some(i) => {
            let ext = name.skip(i + 1);
            i > 0 && 0 < ext.len() <= 5 && forall|k: int|
                0 <= k < ext.len() ==> common::is_alnum(#[trigger] ext[k])
        },
    }
}

/// Whether a candidate for a file name has a usable extension. Bare UUIDs have
/// none.
pub fn has_usable_extension(name: &str) -> (r: bool)
    ensures
        r == extension_ok(name@),
{
    let chars = text::to_chars(name);
    match text::rfind_char(chars.as_slice(), '.') {
        None => false,
        Some(i) => {
            let len: usize = chars.len();
            let ghost ext = name@.skip(i + 1);
            if i == 0 || len - i == 1 || len - i > 6 {
                return false;
            }
            let mut k: usize = i + 1;
            while k < len
                invariant
                    i < k <= len,
                    len == chars@.len(),
                    chars@ == name@,
                    text::rfind_char_of(name@, '.') == Some(i as int),
                    ext == name@.skip(i + 1),
                    forall|j: int|
                        0 <= j < k - i - 1 ==> common::is_alnum(#[trigger] ext[j]),
                decreases len - k,
            {
                if !common::char_is_alnum(chars[k]) {
                    assert(!common::is_alnum(ext[k - i - 1]));
                    return false;
                }
                k = k + 1;
            }
            true
        },
    }
}

/// What follows the last `c`, or all of it where there is none.
pub open spec fn after_last(s: Seq<char>, c: char) -> Seq<char> {
    match text::rfind_char_of(s, c) {
        Some(i) => s.skip(i + 1),
        None => s,
    }
}

fn last_part<'a>(s: &'a [char], c: char) -> (r: &'a [char])
    ensures
        r@ == after_last(s@, c),
{
    match text::rfind_char(s, c) {
        Some(i) => {
            let len: usize = s.len();
            assert(s@.skip(i + 1) =~= s@.subrange(i + 1, len as int));
            slice_subrange(s, i + 1, len)
        },
        None => s,
    }
}

/// The file name for an uploaded file.
pub open spec fn filename_of(url: Seq<char>, label: Option<Seq<char>>) -> Seq<char> {
    let segment = after_last(url, '/');
    if extension_ok(segment) {
        segment
    } else if label is Some && text::trim_of(label->0).len() > 0 {
        text::trim_of(label->0)
    } else if segment.len() == 0 {
        "attachment"@
    } else {
        segment
    }
}

/// The file name for an uploaded file: the last segment of its URL where that has a
/// usable extension, else the label, else the bare segment or a generic name.
pub fn filename_for_url(url: &str, label: Option<&str>) -> (r: String)
    ensures
        r@ == filename_of(
            url@,
            (match label {
                Some(l) => Some(l@),
                None => None,
            }),
        ),
{
    let chars = text::to_chars(url);
    let segment = text::to_text(last_part(chars.as_slice(), '/'));
    if has_usable_extension(segment.as_str()) {
        return segment;
    }
    if let Some(l) = label {
        let label_chars = text::to_chars(l);
        let trimmed = text::trim(label_chars.as_slice());
        if trimmed.len() > 0 {
            return text::to_text(trimmed);
        }
    }
    if segment.as_str().is_empty() {
        "attachment".to_owned()
    } else {
        segment
    }
}

/// The MIME type for an extension in lower case.
pub open spec fn type_of_extension(ext: Seq<char>) -> Seq<char> {
    if ext == "png"@ {
        "image/png"@
    } else if ext == "jpg"@ || ext == "jpeg"@ {
        "image/jpeg"@
    } else if ext == "gif"@ {
        "image/gif"@
    } else if ext == "webp"@ {
        "image/webp"@
    } else if ext == "svg"@ {
        "image/svg+xml"@
    } else if ext == "bmp"@ {
        "image/bmp"@
    } else if ext == "tiff"@ || ext == "tif"@ {
        "image/tiff"@
    } else if ext == "mp4"@ {
        "video/mp4"@
    } else if ext == "mov"@ || ext == "m4v"@ {
        "video/quicktime"@
    } else if ext == "webm"@ {
        "video/webm"@
    } else if ext == "pdf"@ {
        "application/pdf"@
    } else {
        "application/octet-stream"@
    }
}

/// The MIME type for a file name.
pub open spec fn content_type_of(filename: Seq<char>) -> Seq<char> {
    type_of_extension(common::lowered(after_last(filename, '.')))
}

/// Guesses the MIME type from the extension of a file name.
pub fn guess_content_type(filename: &str) -> (r: String)
    ensures
        r@ == content_type_of(filename@),
{
    let chars = text::to_chars(filename);
    let lowered = common::lower_text(last_part(chars.as_slice(), '.'));
    let ext = lowered.as_slice();
    let mime = if text::equals(ext, "png") {
        "image/png"
    } else if text::equals(ext, "jpg") || text::equals(ext, "jpeg") {
        "image/jpeg"
    } else if text::equals(ext, "gif") {
        "image/gif"
    } else if text::equals(ext, "webp") {
        "image/webp"
    } else if text::equals(ext, "svg") {
        "image/svg+xml"
    } else if text::equals(ext, "bmp") {
        "image/bmp"
    } else if text::equals(ext, "tiff") || text::equals(ext, "tif") {
        "image/tiff"
    } else if text::equals(ext, "mp4") {
        "video/mp4"
    } else if text::equals(ext, "mov") || text::equals(ext, "m4v") {
        "video/quicktime"
    } else if text::equals(ext, "webm") {
        "video/webm"
    } else if text::equals(ext, "pdf") {
        "application/pdf"
    } else {
        "application/octet-stream"
    };
    mime.to_owned()
}

// ---------------------------------------------------------------------------
// Rewriting
// ---------------------------------------------------------------------------

/// An uploaded file that is linked: its URL and the label of the link.
pub struct Upload {
    pub url: Seq<char>,
    pub label: Option<Seq<char>>,
}

/// The id of the attachment for a URL.
pub open spec fn attachment_id(url: Seq<char>) -> Seq<char> {
    det(NS_LINEAR, "attachment"@, url)
}

/// A URL is never empty.
pub proof fn lemma_url_len(s: Seq<char>, pos: int)
    requires
        text::occurs_at(s, needle(), pos),
    ensures
        0 < url_len(s.skip(pos)),
{
    reveal_strlit("https://uploads.linear.app/");
    let t = s.skip(pos);
    assert(s.subrange(pos, pos + needle().len())[0] == 'h');
    assert(t[0] == 'h');
    lemma_url_bound(t.skip(1));
}

/// A URL is part of the text.
pub proof fn lemma_url_bound(s: Seq<char>)
    ensures
        0 <= url_len(s) <= s.len(),
    decreases s.len(),
{
    if s.len() > 0 && !ends_url(s[0]) {
        lemma_url_bound(s.skip(1));
    }
}

/// The text `emitted`, followed by `rest` with the URL of each uploaded file
/// replaced by the path under which the space serves it.
pub open spec fn rewritten_from(emitted: Seq<char>, rest: Seq<char>, space: Seq<char>) -> Seq<char>
    decreases rest.len(),
{
    match text::find_of(rest, needle()) {
        None => emitted + rest,
        Some(pos) => {
            proof {
                text::lemma_find_from(rest, needle(), 0);
                lemma_url_len(rest, pos);
                lemma_url_bound(rest.skip(pos));
            }
            let after = rest.skip(pos);
            let url = after.take(url_len(after));
            rewritten_from(
                emitted + rest.take(pos) + route_of(space, attachment_id(url)),
                after.skip(url_len(after)),
                space,
            )
        },
    }
}

/// The uploaded files that `rest` links, after the text `emitted`.
pub open spec fn uploads_from(emitted: Seq<char>, rest: Seq<char>, space: Seq<char>) -> Seq<Upload>
    decreases rest.len(),
{
    match text::find_of(rest, needle()) {
        None => seq![],
        Some(pos) => {
            proof {
                text::lemma_find_from(rest, needle(), 0);
                lemma_url_len(rest, pos);
                lemma_url_bound(rest.skip(pos));
            }
            let after = rest.skip(pos);
            let url = after.take(url_len(after));
            let before = emitted + rest.take(pos);
            seq![Upload { url, label: label_of(before) }] + uploads_from(
                before + route_of(space, attachment_id(url)),
                after.skip(url_len(after)),
                space,
            )
        },
    }
}

/// Markdown with the URL of each uploaded file replaced.
pub open spec fn rewritten(markdown: Seq<char>, space: Seq<char>) -> Seq<char> {
    rewritten_from(seq![], markdown, space)
}

/// The uploaded files that Markdown links, in order.
pub open spec fn uploads(markdown: Seq<char>, space: Seq<char>) -> Seq<Upload> {
    uploads_from(seq![], markdown, space)
}

/// The attachment for an uploaded file.
pub open spec fn upload_attachment(u: Upload, by: Seq<char>, at: Seq<char>) -> AttachmentView {
    let filename = filename_of(u.url, u.label);
    AttachmentView {
        id: attachment_id(u.url),
        filename,
        content_type: content_type_of(filename),
        size_bytes: 0,
        uploaded_by: by,
        uploaded_at: at,
        document_id: None,
        orphaned: false,
    }
}

/// What has been gathered, with one more uploaded file, if it is new.
pub open spec fn noted(g: Gathered, u: Upload, by: Seq<char>, at: Seq<char>) -> Gathered {
    let id = attachment_id(u.url);
    if g.urls.contains_key(id) {
        g
    } else {
        Gathered {
            list: g.list.push(upload_attachment(u, by, at)),
            urls: g.urls.insert(id, u.url),
        }
    }
}

/// What has been gathered, with more uploaded files.
pub open spec fn all_noted(g: Gathered, v: Seq<Upload>, by: Seq<char>, at: Seq<char>) -> Gathered
    decreases v.len(),
{
    if v.len() == 0 {
        g
    } else {
        all_noted(noted(g, v[0], by, at), v.skip(1), by, at)
    }
}

/// Uploaded files are noted one list after the other.
pub proof fn lemma_noted_append(
    g: Gathered,
    a: Seq<Upload>,
    b: Seq<Upload>,
    by: Seq<char>,
    at: Seq<char>,
)
    ensures
        all_noted(g, a + b, by, at) == all_noted(all_noted(g, a, by, at), b, by, at),
    decreases a.len(),
{
    if a.len() == 0 {
        assert(a + b =~= b);
    } else {
        assert((a + b).skip(1) =~= a.skip(1) + b);
        lemma_noted_append(noted(g, a[0], by, at), a.skip(1), b, by, at);
    }
}

fn note(atts: &mut Attachments, url: &str, label: Option<&str>, by: &str, at: &str) -> (r: String)
    ensures
        r@ == attachment_id(url@),
        final(atts)@ == noted(
            old(atts)@,
            (Upload {
                url: url@,
                label: match label {
                    Some(l) => Some(l@),
                    None => None,
                },
            }),
            by@,
            at@,
        ),
{
    let id = det_id(NS_LINEAR, "attachment", url);
    if !atts.urls.contains_key(id.as_str()) {
        let filename = filename_for_url(url, label);
        let content_type = guess_content_type(filename.as_str());
        let a = ExportAttachment {
            id: id.clone(),
            filename,
            content_type,
            size_bytes: 0,
            uploaded_by: by.to_owned(),
            uploaded_at: at.to_owned(),
            document_id: None,
            orphaned: false,
        };
        atts.push(a);
        atts.put_url(id.clone(), url.to_owned());
    }
    id
}

/// Finds the uploaded files that Markdown links: as images, as links or as bare
/// URLs. Each is noted as an attachment, once, and its URL is replaced by the path
/// under which the space serves it.
pub fn rewrite_inline_images(
    markdown: &str,
    space_id: &str,
    atts: &mut Attachments,
    uploaded_by: &str,
    uploaded_at: &str,
) -> (r: String)
    ensures
        r@ == rewritten(markdown@, space_id@),
        final(atts)@ == all_noted(
            old(atts)@,
            uploads(markdown@, space_id@),
            uploaded_by@,
            uploaded_at@,
        ),
{
    let chars = text::to_chars(markdown);
    let mut rest: &[char] = chars.as_slice();
    let mut out = String::new();
    let ghost goal = rewritten(markdown@, space_id@);
    let ghost gathered = all_noted(
        atts@,
        uploads(markdown@, space_id@),
        uploaded_by@,
        uploaded_at@,
    );
    assert(out@ =~= seq![]);
    let mut found = text::find(rest, "https://uploads.linear.app/");
    while found.is_some()
        invariant
            text::opt_pos(found) == text::find_of(rest@, needle()),
            found is Some ==> text::occurs_at(rest@, needle(), found->0 as int),
            goal == rewritten_from(out@, rest@, space_id@),
            gathered == all_noted(
                atts@,
                uploads_from(out@, rest@, space_id@),
                uploaded_by@,
                uploaded_at@,
            ),
        decreases rest@.len(),
    {
        let pos: usize = found.unwrap();
        let ghost emitted = out@;
        let ghost was = rest@;
        let head = text::to_text(slice_subrange(rest, 0, pos));
        out.append(head.as_str());
        let after = slice_subrange(rest, pos, rest.len());
        proof {
            lemma_url_len(was, pos as int);
            assert(was.subrange(0, pos as int) =~= was.take(pos as int));
            assert(after@ =~= was.skip(pos as int));
        }
        let n: usize = find_url_end(after);
        let url = text::to_text(slice_subrange(after, 0, n));
        assert(after@.subrange(0, n as int) =~= after@.take(n as int));
        let label = preceding_label(out.as_str());
        let label_ref: Option<&str> = match &label {
            Some(l) => Some(l.as_str()),
            None => None,
        };
        let ghost before = out@;
        let ghost g = atts@;
        let ghost up = Upload { url: url@, label: label_of(before) };
        let id = note(atts, url.as_str(), label_ref, uploaded_by, uploaded_at);
        let path = common::route(space_id, id.as_str());
        out.append(path.as_str());
        rest = slice_subrange(after, n, after.len());
        proof {
            assert(rest@ =~= after@.skip(n as int));
            let more = uploads_from(out@, rest@, space_id@);
            assert(uploads_from(emitted, was, space_id@) =~= seq![up] + more);
            assert((seq![up] + more).skip(1) =~= more);
        }
        found = text::find(rest, "https://uploads.linear.app/");
    }
    let tail = text::to_text(rest);
    out.append(tail.as_str());
    out
}

/// Text that links no uploaded file stays as it is.
pub proof fn lemma_rewrite_plain(markdown: Seq<char>, space: Seq<char>)
    requires
        text::find_of(markdown, needle()) is None,
    ensures
        rewritten(markdown, space) == markdown,
        uploads(markdown, space).len() == 0,
{
    assert(seq![] + markdown =~= markdown);
}

/// Whether each attachment has its URL, and no two have the same id.
pub open spec fn one_each(g: Gathered) -> bool {
    &&& forall|i: int| 0 <= i < g.list.len() ==> g.urls.contains_key((#[trigger] g.list[i]).id)
    &&& forall|i: int, j: int|
        0 <= i < j < g.list.len() ==> (#[trigger] g.list[i]).id != (#[trigger] g.list[j]).id
}

/// Whether the attachments and the URLs belong together: no two attachments have the
/// same id, their ids are the keys of the URLs, and each key is the id of its URL.
pub open spec fn in_step(g: Gathered) -> bool {
    &&& one_each(g)
    &&& forall|k: Seq<char>| #[trigger]
        g.urls.contains_key(k) ==> k == attachment_id(g.urls[k]) && exists|i: int|
            0 <= i < g.list.len() && (#[trigger] g.list[i]).id == k
}

/// Whether a URL has been gathered.
pub open spec fn is_gathered(g: Gathered, url: Seq<char>) -> bool {
    exists|k: Seq<char>| #[trigger] g.urls.contains_key(k) && g.urls[k] == url
}

/// Whether a URL has been gathered, or is that of one of the files.
pub open spec fn is_linked(g: Gathered, v: Seq<Upload>, url: Seq<char>) -> bool {
    is_gathered(g, url) || exists|i: int| 0 <= i < v.len() && (#[trigger] v[i]).url == url
}

/// Whether no two of the URLs have the same id.
pub open spec fn ids_differ(g: Gathered, v: Seq<Upload>) -> bool {
    forall|a: Seq<char>, b: Seq<char>| #[trigger]
        is_linked(g, v, a) && #[trigger] is_linked(g, v, b) && attachment_id(a) == attachment_id(b)
            ==> a == b
}

/// The files whose URLs are new, each URL once.
pub open spec fn new_uploads(g: Gathered, v: Seq<Upload>, by: Seq<char>, at: Seq<char>) -> Seq<Upload>
    decreases v.len(),
{
    if v.len() == 0 {
        seq![]
    } else if is_gathered(g, v[0].url) {
        new_uploads(g, v.skip(1), by, at)
    } else {
        seq![v[0]] + new_uploads(noted(g, v[0], by, at), v.skip(1), by, at)
    }
}

/// The attachments for files.
pub open spec fn upload_attachments(v: Seq<Upload>, by: Seq<char>, at: Seq<char>) -> Seq<
    AttachmentView,
> {
    v.map_values(|u: Upload| upload_attachment(u, by, at))
}

/// One more file leaves attachments and URLs in step.
proof fn lemma_noted_in_step(g: Gathered, u: Upload, by: Seq<char>, at: Seq<char>)
    requires
        in_step(g),
    ensures
        in_step(noted(g, u, by, at)),
        forall|url: Seq<char>|
            is_gathered(noted(g, u, by, at), url) ==> is_gathered(g, url) || url == u.url,
{
    let h = noted(g, u, by, at);
    let id = attachment_id(u.url);
    if !g.urls.contains_key(id) {
        let n = g.list.len() as int;
        assert(h.list[n].id == id);
        assert forall|i: int, j: int| 0 <= i < j < h.list.len() implies (#[trigger] h.list[i]).id
            != (#[trigger] h.list[j]).id by {
            assert(g.urls.contains_key(g.list[i].id));
        }
        assert forall|k: Seq<char>| #[trigger] h.urls.contains_key(k) implies k == attachment_id(
            h.urls[k],
        ) && exists|i: int| 0 <= i < h.list.len() && (#[trigger] h.list[i]).id == k by {
            if k != id {
                assert(g.urls.contains_key(k));
                let i = choose|i: int| 0 <= i < g.list.len() && (#[trigger] g.list[i]).id == k;
                assert(h.list[i].id == k);
            }
        }
        assert forall|url: Seq<char>| is_gathered(h, url) implies is_gathered(g, url) || url
            == u.url by {
            let k = choose|k: Seq<char>| #[trigger] h.urls.contains_key(k) && h.urls[k] == url;
            if k != id {
                assert(g.urls.contains_key(k));
            }
        }
    }
}

/// Attachments and URLs that are in step stay in step when files are noted. What was
/// there stays, as the beginning of the list and under its keys, and every file has an
/// attachment, however often it is linked. Where no two URLs have the same id, one attachment is added for each URL that is new, without a size and
/// with that URL.
pub proof fn lemma_uploads(g: Gathered, v: Seq<Upload>, by: Seq<char>, at: Seq<char>)
    requires
        in_step(g),
    ensures
        in_step(all_noted(g, v, by, at)),
        g.list.is_prefix_of(all_noted(g, v, by, at).list),
        forall|k: Seq<char>| #[trigger]
            g.urls.contains_key(k) ==> all_noted(g, v, by, at).urls.contains_key(k) && all_noted(
                g,
                v,
                by,
                at,
            ).urls[k] == g.urls[k],
        forall|i: int|
            0 <= i < v.len() ==> all_noted(g, v, by, at).urls.contains_key(
                attachment_id((#[trigger] v[i]).url),
            ),
        ids_differ(g, v) ==> all_noted(g, v, by, at).list == g.list + upload_attachments(
            new_uploads(g, v, by, at),
            by,
            at,
        ),
        ids_differ(g, v) ==> forall|i: int|
            0 <= i < v.len() ==> all_noted(g, v, by, at).urls.contains_key(
                attachment_id((#[trigger] v[i]).url),
            ) && all_noted(g, v, by, at).urls[attachment_id(v[i].url)] == v[i].url,
        v.len() == 0 ==> all_noted(g, v, by, at) == g,
    decreases v.len(),
{
    if v.len() == 0 {
        assert(upload_attachments(new_uploads(g, v, by, at), by, at) =~= seq![]);
        assert(g.list + seq![] =~= g.list);
    } else {
        let u = v[0];
        let id = attachment_id(u.url);
        let h = noted(g, u, by, at);
        let rest = v.skip(1);
        let after = all_noted(g, v, by, at);
        lemma_noted_in_step(g, u, by, at);
        lemma_uploads(h, rest, by, at);
        assert(g.list.is_prefix_of(h.list));
        assert(g.list.is_prefix_of(after.list)) by {
            assert(after.list.take(g.list.len() as int) =~= h.list.take(g.list.len() as int));
        }
        assert forall|k: Seq<char>| #[trigger] g.urls.contains_key(k) implies after.urls.contains_key(
            k,
        ) && after.urls[k] == g.urls[k] by {
            assert(h.urls.contains_key(k));
        }
        assert(h.urls.contains_key(id));
        assert forall|i: int| 0 <= i < v.len() implies after.urls.contains_key(
            attachment_id((#[trigger] v[i]).url),
        ) by {
            if i > 0 {
                assert(rest[i - 1] == v[i]);
            }
        }
        if ids_differ(g, v) {
            assert(is_linked(g, v, u.url)) by {
                assert(v[0].url == u.url);
            }
            assert(g.urls.contains_key(id) <==> is_gathered(g, u.url)) by {
                if g.urls.contains_key(id) {
                    let other = g.urls[id];
                    assert(is_gathered(g, other));
                    assert(is_linked(g, v, other));
                    assert(attachment_id(other) == id);
                }
                if is_gathered(g, u.url) {
                    let k = choose|k: Seq<char>| #[trigger]
                        g.urls.contains_key(k) && g.urls[k] == u.url;
                    assert(k == id);
                }
            }
            assert(ids_differ(h, rest)) by {
                assert forall|a: Seq<char>| #[trigger] is_linked(h, rest, a) implies is_linked(
                    g,
                    v,
                    a,
                ) by {
                    if !is_gathered(h, a) {
                        let i = choose|i: int| 0 <= i < rest.len() && (#[trigger] rest[i]).url == a;
                        assert(v[i + 1].url == a);
                    }
                }
            }
            let more = new_uploads(h, rest, by, at);
            if is_gathered(g, u.url) {
                assert(h == g);
            } else {
                assert(upload_attachments(seq![u] + more, by, at) =~= seq![
                    upload_attachment(u, by, at),
                ] + upload_attachments(more, by, at));
                assert(h.list + upload_attachments(more, by, at) =~= g.list + upload_attachments(
                    seq![u] + more,
                    by,
                    at,
                ));
            }
            assert(h.urls.contains_key(id) && h.urls[id] == u.url) by {
                if g.urls.contains_key(id) {
                    let k = choose|k: Seq<char>| #[trigger]
                        g.urls.contains_key(k) && g.urls[k] == u.url;
                    assert(k == id);
                }
            }
            assert forall|i: int| 0 <= i < v.len() implies after.urls.contains_key(
                attachment_id((#[trigger] v[i]).url),
            ) && after.urls[attachment_id(v[i].url)] == v[i].url by {
                if i > 0 {
                    assert(rest[i - 1] == v[i]);
                }
            }
        }
    }
}

} // verus!
