//! The archive for the import wizard.
//!
//! An archive holds an entry `attachments/{id}/{filename}` for each attachment and
//! the export itself as `data.json`, which comes last, so that the export can still
//! be filled in while attachments are added.

use std::io::{Cursor, Write};

use vstd::prelude::*;
use vstd::string::StringExecFns;
use zip::write::SimpleFileOptions;
use zip::{CompressionMethod, ZipWriter};

use crate::text;

verus! {

// ---------------------------------------------------------------------------
// ZIP archives
// ---------------------------------------------------------------------------

/// An archive that is written in memory.
#[verifier::external_body]
pub struct Archive {
    zip: ZipWriter<Cursor<Vec<u8>>>,
}

/// The name and the bytes of each entry that was started, in order.
pub uninterp spec fn archive_entries(a: Archive) -> Seq<(Seq<char>, Seq<u8>)>;

/// The name and the bytes of each entry that a ZIP file holds, in order.
pub uninterp spec fn zip_entries(file: Seq<u8>) -> Seq<(Seq<char>, Seq<u8>)>;

/// No entries.
pub open spec fn no_entries() -> Seq<(Seq<char>, Seq<u8>)> {
    seq![]
}

/// An entry.
pub open spec fn entry(name: Seq<char>, bytes: Seq<u8>) -> (Seq<char>, Seq<u8>) {
    (name, bytes)
}

/// The entries, with more bytes in the last one.
pub open spec fn with_bytes(v: Seq<(Seq<char>, Seq<u8>)>, bytes: Seq<u8>) -> Seq<
    (Seq<char>, Seq<u8>),
> {
    v.drop_last().push(entry(v.last().0, v.last().1 + bytes))
}

/// Whether there is an entry of that name.
pub open spec fn has_name(v: Seq<(Seq<char>, Seq<u8>)>, name: Seq<char>) -> bool {
    exists|i: int| 0 <= i < v.len() && (#[trigger] v[i]).0 == name
}

/// The least number of bytes that is too much for an entry. A ZIP file writes both
/// sizes of an entry, before and after it is deflated, as numbers of four bytes, and
/// deflating may make an entry larger, by less than an eighth where it is so large.
pub const ENTRY_LIMIT: u64 = 0xe000_0000;

/// Whether a ZIP file can hold an entry of so many bytes.
pub open spec fn body_fits(bytes: Seq<u8>) -> bool {
    bytes.len() < ENTRY_LIMIT
}

/// Whether a ZIP file can hold the bytes of all entries.
pub open spec fn bodies_fit(v: Seq<(Seq<char>, Seq<u8>)>) -> bool {
    forall|i: int| 0 <= i < v.len() ==> body_fits((#[trigger] v[i]).1)
}

/// Whether the last entry that was started can still be written to.
pub uninterp spec fn archive_open(a: Archive) -> bool;

/// `ZipWriter::new` over an empty buffer: an archive without entries.
#[verifier::external_body]
fn new_archive() -> (r: Archive)
    ensures
        archive_entries(r) == no_entries(),
{
    Archive { zip: ZipWriter::new(Cursor::new(Vec::new())) }
}

/// Whether a ZIP file can hold an entry of that name, whose length it writes as a
/// number of two bytes.
pub open spec fn name_fits(name: Seq<char>) -> bool {
    text::utf8_len(name) <= 0xffff
}

/// `ZipWriter::start_file` with deflated data: where it succeeds, there is a new entry
/// of that name, still empty. Over a buffer in memory, and with entries that fit, it
/// fails only on a name that is there already, and then the archive stays as it is. It
/// panics on a name that is too long.
#[verifier::external_body]
fn start_file(a: &mut Archive, name: &str) -> (r: Result<(), String>)
    requires
        name_fits(name@),
    ensures
        r is Ok ==> archive_entries(*final(a)) == archive_entries(*old(a)).push(
            entry(name@, seq![]),
        ) && archive_open(*final(a)),
        bodies_fit(archive_entries(*old(a))) ==> (r is Ok <==> !has_name(
            archive_entries(*old(a)),
            name@,
        )),
        bodies_fit(archive_entries(*old(a))) && r is Err ==> archive_entries(*final(a))
            == archive_entries(*old(a)),
{
    let options = SimpleFileOptions::default().compression_method(CompressionMethod::Deflated);
    a.zip.start_file(name, options).map_err(|e| e.to_string())
}

/// `write_all` of a `ZipWriter`: where it succeeds, the bytes are appended to the last
/// entry. Over a buffer in memory it succeeds, where that entry is open and still fits.
#[verifier::external_body]
fn write_bytes(a: &mut Archive, bytes: &[u8]) -> (r: Result<(), String>)
    requires
        archive_entries(*old(a)).len() > 0,
    ensures
        r is Ok ==> archive_entries(*final(a)) == with_bytes(archive_entries(*old(a)), bytes@),
        archive_open(*old(a)) && body_fits(archive_entries(*old(a)).last().1 + bytes@) ==> r is Ok,
{
    a.zip.write_all(bytes).map_err(|e| e.to_string())
}

/// `ZipWriter::finish`: where it succeeds, the file holds the entries of the archive.
/// Over a buffer in memory it succeeds, where all entries fit.
#[verifier::external_body]
fn finish_archive(a: Archive) -> (r: Result<Vec<u8>, String>)
    ensures
        r is Ok ==> zip_entries(r->Ok_0@) == archive_entries(a),
        bodies_fit(archive_entries(a)) ==> r is Ok,
{
    a.zip.finish().map(|c| c.into_inner()).map_err(|e| e.to_string())
}

// ---------------------------------------------------------------------------
// Space exports
// ---------------------------------------------------------------------------

/// The archive of an export while it is written: attachments are added one at a time,
/// and the export comes last.
pub struct SpaceExportZip {
    archive: Archive,
}

/// The name of the entry of an attachment.
pub open spec fn attachment_entry(id: Seq<char>, filename: Seq<char>) -> Seq<char> {
    "attachments/"@ + id + "/"@ + filename
}

fn attachment_name(id: &str, filename: &str) -> (r: String)
    ensures
        r@ == attachment_entry(id@, filename@),
{
    "attachments/".to_owned().concat(id).concat("/").concat(filename)
}

fn failure(what: &str, name: &str, error: &str) -> (r: String)
    ensures
        r@ == what@ + name@ + ": "@ + error@,
{
    what.to_owned().concat(name).concat(": ").concat(error)
}

/// Whether a message tells that an entry could not be started or written.
pub open spec fn tells_of(m: Seq<char>, name: Seq<char>) -> bool {
    ("start "@ + name + ": "@).is_prefix_of(m) || ("write "@ + name + ": "@).is_prefix_of(m)
}

/// Whether a message tells that an archive could not be finished.
pub open spec fn tells_of_end(m: Seq<char>) -> bool {
    tells_of(m, "data.json"@) || "finish zip: "@.is_prefix_of(m)
}

impl SpaceExportZip {
    /// The entries so far.
    pub closed spec fn entries(&self) -> Seq<(Seq<char>, Seq<u8>)> {
        archive_entries(self.archive)
    }

    /// Opens an archive.
    pub fn new() -> (r: Self)
        ensures
            r.entries() == no_entries(),
    {
        SpaceExportZip { archive: new_archive() }
    }

    fn add_entry(&mut self, name: &str, bytes: &[u8]) -> (r: Result<(), String>)
        requires
            name_fits(name@),
        ensures
            r is Ok ==> final(self).entries() == old(self).entries().push(entry(name@, bytes@)),
            bodies_fit(old(self).entries()) && body_fits(bytes@) ==> (r is Ok <==> !has_name(
                old(self).entries(),
                name@,
            )),
            bodies_fit(old(self).entries()) && body_fits(bytes@) && r is Err
                ==> final(self).entries() == old(self).entries(),
            r matches Err(m) ==> tells_of(m@, name@),
    {
        let ghost was = archive_entries(self.archive);
        assert(seq![] + bytes@ =~= bytes@);
        match start_file(&mut self.archive, name) {
            Ok(_) => {},
            Err(e) => {
                return Err(failure("start ", name, e.as_str()));
            },
        }
        match write_bytes(&mut self.archive, bytes) {
            Ok(_) => {},
            Err(e) => {
                return Err(failure("write ", name, e.as_str()));
            },
        }
        proof {
            let started = was.push(entry(name@, seq![]));
            assert(started.drop_last() =~= was);
        }
        Ok(())
    }

    /// Adds an attachment. Where all entries fit, this fails only on an entry that is
    /// there already, and then the archive stays as it is.
    pub fn add_attachment(&mut self, att_id: &str, filename: &str, bytes: &[u8]) -> (r: Result<
        (),
        String,
    >)
        requires
            name_fits(attachment_entry(att_id@, filename@)),
        ensures
            r is Ok ==> final(self).entries() == old(self).entries().push(
                entry(attachment_entry(att_id@, filename@), bytes@),
            ),
            bodies_fit(old(self).entries()) && body_fits(bytes@) ==> (r is Ok <==> !has_name(
                old(self).entries(),
                attachment_entry(att_id@, filename@),
            )),
            bodies_fit(old(self).entries()) && body_fits(bytes@) && r is Err
                ==> final(self).entries() == old(self).entries(),
            r matches Err(m) ==> tells_of(m@, attachment_entry(att_id@, filename@)),
    {
        let name = attachment_name(att_id, filename);
        self.add_entry(name.as_str(), bytes)
    }

    /// Adds the export, as JSON text, and closes the archive. Gives the bytes of the
    /// ZIP file.
    pub fn finish(self, json: &[u8]) -> (r: Result<Vec<u8>, String>)
        ensures
            r is Ok ==> zip_entries(r->Ok_0@) == self.entries().push(entry("data.json"@, json@)),
            bodies_fit(self.entries()) && body_fits(json@) ==> (r is Ok <==> !has_name(
                self.entries(),
                "data.json"@,
            )),
            r matches Err(m) ==> tells_of_end(m@),
    {
        let mut zip = self;
        proof {
            reveal_strlit("data.json");
            text::lemma_narrow_len("data.json"@);
        }
        match zip.add_entry("data.json", json) {
            Ok(_) => {},
            Err(e) => {
                return Err(e);
            },
        }
        match finish_archive(zip.archive) {
            Ok(bytes) => Ok(bytes),
            Err(e) => Err("finish zip: ".to_owned().concat(e.as_str())),
        }
    }
}

/// The entries of the attachments.
pub open spec fn attachment_entries(v: Seq<(String, String, Vec<u8>)>) -> Seq<
    (Seq<char>, Seq<u8>),
>
    decreases v.len(),
{
    if v.len() == 0 {
        no_entries()
    } else {
        let (id, filename, bytes) = v.last();
        attachment_entries(v.drop_last()).push(entry(attachment_entry(id@, filename@), bytes@))
    }
}

/// Whether two of the attachments would get one entry.
pub open spec fn entries_clash(v: Seq<(String, String, Vec<u8>)>) -> bool {
    exists|i: int, j: int|
        0 <= i < j < v.len() && attachment_entry((#[trigger] v[i]).0@, v[i].1@)
            == attachment_entry((#[trigger] v[j]).0@, v[j].1@)
}

/// Whether a ZIP file can hold the bytes of all attachments.
pub open spec fn attachments_fit(v: Seq<(String, String, Vec<u8>)>) -> bool {
    forall|i: int| 0 <= i < v.len() ==> body_fits((#[trigger] v[i]).2@)
}

/// Builds a whole archive: the attachments, and the export last. Where all of them fit,
/// this fails only if two attachments would get one entry.
pub fn write_space_export_zip(json: &[u8], attachments: &Vec<(String, String, Vec<u8>)>) -> (r:
    Result<Vec<u8>, String>)
    requires
        forall|i: int|
            0 <= i < attachments@.len() ==> name_fits(
                attachment_entry((#[trigger] attachments@[i]).0@, attachments@[i].1@),
            ),
    ensures
        r is Ok ==> zip_entries(r->Ok_0@) == attachment_entries(attachments@).push(
            entry("data.json"@, json@),
        ),
        attachments_fit(attachments@) && body_fits(json@) ==> (r is Ok <==> !entries_clash(
            attachments@,
        )),
        r matches Err(m) ==> tells_of_end(m@) || exists|i: int|
            0 <= i < attachments@.len() && tells_of(
                m@,
                attachment_entry((#[trigger] attachments@[i]).0@, attachments@[i].1@),
            ),
{
    let ghost all = attachments@;
    let mut zip = SpaceExportZip::new();
    let mut i: usize = 0;
    assert(all.take(0) =~= seq![]);
    while i < attachments.len()
        invariant
            i <= all.len(),
            all == attachments@,
            forall|i: int|
                0 <= i < all.len() ==> name_fits(
                    attachment_entry((#[trigger] all[i]).0@, all[i].1@),
                ),
            zip.entries() == attachment_entries(all.take(i as int)),
            attachments_fit(all) ==> !entries_clash(all.take(i as int)),
        decreases all.len() - i,
    {
        proof {
            lemma_attachment_entries(all.take(i as int));
            if attachments_fit(all) {
                assert(bodies_fit(zip.entries()));
                lemma_clash(all, i as int, zip.entries());
            }
        }
        assert(all.take(i + 1).drop_last() =~= all.take(i as int));
        let (id, filename, bytes) = &attachments[i];
        match zip.add_attachment(id.as_str(), filename.as_str(), bytes.as_slice()) {
            Ok(_) => {},
            Err(e) => {
                return Err(e);
            },
        }
        i = i + 1;
    }
    assert(all.take(all.len() as int) =~= all);
    proof {
        lemma_attachment_entries(all);
        reveal_strlit("attachments/");
        reveal_strlit("data.json");
        assert forall|k: int| 0 <= k < zip.entries().len() implies (#[trigger] zip.entries()[k]).0
            != "data.json"@ by {
            assert(zip.entries()[k].0[0] == 'a');
        }
    }
    zip.finish(json)
}

/// The next attachment clashes with one before it exactly where there is an entry of its
/// name.
proof fn lemma_clash(
    v: Seq<(String, String, Vec<u8>)>,
    n: int,
    entries: Seq<(Seq<char>, Seq<u8>)>,
)
    requires
        0 <= n < v.len(),
        entries == attachment_entries(v.take(n)),
        !entries_clash(v.take(n)),
    ensures
        entries_clash(v.take(n + 1)) <==> has_name(entries, attachment_entry(v[n].0@, v[n].1@)),
        has_name(entries, attachment_entry(v[n].0@, v[n].1@)) ==> entries_clash(v),
{
    lemma_attachment_entries(v.take(n));
    let name = attachment_entry(v[n].0@, v[n].1@);
    let more = v.take(n + 1);
    if has_name(entries, name) {
        let i = choose|i: int| 0 <= i < entries.len() && (#[trigger] entries[i]).0 == name;
        assert(v.take(n)[i] == v[i]);
        assert(more[i] == v[i] && more[n] == v[n]);
        assert(entries_clash(more));
        assert(entries_clash(v));
    }
    if entries_clash(more) {
        let (i, j) = choose|i: int, j: int|
            0 <= i < j < more.len() && attachment_entry((#[trigger] more[i]).0@, more[i].1@)
                == attachment_entry((#[trigger] more[j]).0@, more[j].1@);
        if j < n {
            assert(v.take(n)[i] == more[i] && v.take(n)[j] == more[j]);
            assert(entries_clash(v.take(n)));
        }
        assert(v.take(n)[i] == more[i]);
        assert(entries[i].0 == name);
    }
}

/// An archive holds its attachments in order, each under its own directory, and the
/// export once, as the last entry.
pub proof fn lemma_archive_layout(
    zip: Seq<u8>,
    json: Seq<u8>,
    attachments: Seq<(String, String, Vec<u8>)>,
    i: int,
)
    requires
        zip_entries(zip) == attachment_entries(attachments).push(entry("data.json"@, json)),
        0 <= i < attachments.len(),
    ensures
        zip_entries(zip).len() == attachments.len() + 1,
        zip_entries(zip).last() == entry("data.json"@, json),
        zip_entries(zip)[i] == entry(
            attachment_entry(attachments[i].0@, attachments[i].1@),
            attachments[i].2@,
        ),
        zip_entries(zip)[i].0 != "data.json"@,
{
    lemma_attachment_entries(attachments);
    reveal_strlit("attachments/");
    reveal_strlit("data.json");
    assert(zip_entries(zip)[i].0[0] == 'a');
}

proof fn lemma_attachment_entries(v: Seq<(String, String, Vec<u8>)>)
    ensures
        attachment_entries(v).len() == v.len(),
        forall|i: int|
            0 <= i < v.len() ==> #[trigger] attachment_entries(v)[i] == entry(
                attachment_entry(v[i].0@, v[i].1@),
                v[i].2@,
            ),
    decreases v.len(),
{
    if v.len() > 0 {
        lemma_attachment_entries(v.drop_last());
    }
}

} // verus!
