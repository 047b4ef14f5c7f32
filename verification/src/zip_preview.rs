//! The preview of a ZIP archive: the list of its first entries, read from the
//! archive's bytes with the `zip` crate.
use vstd::prelude::*;
use std::io::Cursor;
use zip::result::ZipError;
use zip::ZipArchive;
use crate::chars::push_str;

verus! {

#[verifier::external_type_specification]
#[verifier::external_body]
#[verifier::reject_recursive_types(R)]
pub struct ExZipArchive<R>(ZipArchive<R>);

#[verifier::external_type_specification]
#[verifier::external_body]
#[verifier::reject_recursive_types(T)]
pub struct ExCursor<T>(Cursor<T>);

#[verifier::external_type_specification]
#[verifier::external_body]
pub struct ExZipError(ZipError);

/// An archive read from bytes held in memory.
pub type MemoryArchive = ZipArchive<Cursor<Vec<u8>>>;

/// What the archive's directory says of one entry, as `by_index_raw` reads it:
/// `None` when the entry cannot be reached; otherwise whether it is encrypted,
/// whether it is a folder, and its name (`None` when the name cannot be decoded).
pub type EntrySummary = Option<(bool, bool, Option<Seq<char>>)>;

/// What `ZipArchive::new` finds in `bytes`: `None` when they are no readable
/// archive, otherwise the entries of its central directory in order.
pub uninterp spec fn zip_listing(bytes: Seq<u8>) -> Option<Seq<EntrySummary>>;

/// The entries of an open archive.
pub uninterp spec fn zip_entries(archive: MemoryArchive) -> Seq<EntrySummary>;

/// Opens the archive held in `bytes` (`ZipArchive::new` over a `Cursor`).
/// Trusted: it succeeds exactly when `zip_listing` finds an archive, and then
/// holds the entries that `zip_listing` lists.
#[verifier::external_body]
fn open_archive(bytes: Vec<u8>) -> (r: Result<MemoryArchive, ZipError>)
    ensures
        r is Ok <==> zip_listing(bytes@) is Some,
        r matches Ok(a) ==> zip_entries(a) == zip_listing(bytes@)->0,
{
    ZipArchive::new(Cursor::new(bytes))
}

/// The number of entries of an archive (`ZipArchive::len`).
/// Trusted: it is the number of entries that `zip_entries` lists.
#[verifier::external_body]
fn archive_len(archive: &MemoryArchive) -> (r: usize)
    ensures
        r == zip_entries(*archive).len(),
{
    archive.len()
}

/// What `by_index_raw` reports of one entry.
pub struct EntryInfo {
    pub encrypted: bool,
    pub is_dir: bool,
    pub name: Result<String, ZipError>,
}

/// Reads entry `index` with `ZipArchive::by_index_raw` and reports what
/// `ZipFile::encrypted`, `ZipFile::is_dir` and `ZipFile::name` say of it.
/// Trusted: the answer is the one `zip_entries` records for that entry, an
/// error past the last entry, and the archive's entries do not change.
#[verifier::external_body]
fn archive_entry(archive: &mut MemoryArchive, index: usize) -> (r: Result<EntryInfo, ZipError>)
    ensures
        zip_entries(*final(archive)) == zip_entries(*old(archive)),
        index >= zip_entries(*old(archive)).len() ==> r is Err,
        index < zip_entries(*old(archive)).len() ==> match zip_entries(*old(archive))[index as int] {
            None => r is Err,
            Some(e) => r matches Ok(info) && info.encrypted == e.0 && info.is_dir == e.1 && (
            info.name is Ok <==> e.2 is Some) && (info.name matches Ok(n) ==> n@ == e.2->0),
        },
{
    match archive.by_index_raw(index) {
        Ok(file) => Ok(
            EntryInfo {
                encrypted: file.encrypted(),
                is_dir: file.is_dir(),
                name: match file.name() {
                    Ok(name) => Ok(name.into_owned()),
                    Err(error) => Err(error),
                },
            },
        ),
        Err(error) => Err(error),
    }
}

/// The message of a `zip` error (its `Display`). Nothing is promised of the text.
#[verifier::external_body]
fn zip_error_message(error: &ZipError) -> (r: String) {
    error.to_string()
}

/// The texts of a ZIP preview: for an empty archive, before the archive's
/// path, for an encrypted entry, and after the first forty entries.
pub struct ZipTexts {
    pub empty: &'static str,
    pub header: &'static str,
    pub encrypted: &'static str,
    pub more: &'static str,
}

/// How reading the first entries ends.
pub enum Scan {
    /// The lines so far.
    Lines(Seq<Seq<char>>),
    /// An encrypted entry was met.
    Encrypted,
    /// An entry could not be read.
    Failed,
}

/// The line of one entry: `[DIR]` or `[FILE]` and its name.
pub open spec fn entry_line(is_dir: bool, name: Seq<char>) -> Seq<char> {
    (if is_dir {
        "[DIR] "@
    } else {
        "[FILE] "@
    }) + name
}

/// Reading the first `k` entries after the header and an empty line.
pub open spec fn scan(es: Seq<EntrySummary>, header: Seq<char>, k: nat) -> Scan
    decreases k,
{
    if k == 0 {
        Scan::Lines(seq![header, Seq::empty()])
    } else {
        match scan(es, header, (k - 1) as nat) {
            Scan::Lines(ls) => match es[k - 1] {
                None => Scan::Failed,
                Some(e) => if e.0 {
                    Scan::Encrypted
                } else {
                    match e.2 {
                        None => Scan::Failed,
                        Some(name) => Scan::Lines(ls.push(entry_line(e.1, name))),
                    }
                },
            },
            other => other,
        }
    }
}

/// `lines` joined with line feeds.
pub open spec fn joined(lines: Seq<Seq<char>>) -> Seq<char>
    decreases lines.len(),
{
    if lines.len() == 0 {
        Seq::empty()
    } else if lines.len() == 1 {
        lines[0]
    } else {
        joined(lines.drop_last()) + "\n"@ + lines.last()
    }
}

/// The preview from the first entries `shown` of an archive of `total`
/// entries, shown as `display`: a note for an empty archive; the header, an
/// empty line and a line per shown entry, with a note when there are more than
/// forty entries; the encrypted note at the first encrypted entry; `None` when
/// an entry cannot be read.
pub open spec fn listing_text(
    display: Seq<char>,
    shown: Seq<EntrySummary>,
    total: nat,
    empty: Seq<char>,
    header: Seq<char>,
    encrypted: Seq<char>,
    more: Seq<char>,
) -> Option<Seq<char>> {
    if total == 0 {
        Some(empty)
    } else {
        match scan(shown, header + display, shown.len()) {
            Scan::Lines(ls) => Some(joined(if total > 40 { ls.push(more) } else { ls })),
            Scan::Encrypted => Some(encrypted),
            Scan::Failed => None,
        }
    }
}

/// How many entries a preview shows at most: forty.
pub open spec fn shown_count(total: nat) -> nat {
    if total < 40 {
        total
    } else {
        40
    }
}

/// The preview of an archive with the entries `es` (see `listing_text`): the
/// first forty of them are shown.
pub open spec fn zip_preview_text(
    display: Seq<char>,
    es: Seq<EntrySummary>,
    empty: Seq<char>,
    header: Seq<char>,
    encrypted: Seq<char>,
    more: Seq<char>,
) -> Option<Seq<char>> {
    listing_text(display, es.take(shown_count(es.len()) as int), es.len(), empty, header, encrypted, more)
}

/// What the archive's directory says of one readable entry: whether it is
/// encrypted, whether it is a folder, and its name (`None` when it cannot be
/// decoded).
pub struct ZipEntrySummary {
    pub encrypted: bool,
    pub is_dir: bool,
    pub name: Option<String>,
}

pub open spec fn summary_view(s: Option<ZipEntrySummary>) -> EntrySummary {
    match s {
        Some(e) => Some((
            e.encrypted,
            e.is_dir,
            match e.name {
                Some(n) => Some(n@),
                None => None,
            },
        )),
        None => None,
    }
}

pub open spec fn summary_views(v: Seq<Option<ZipEntrySummary>>) -> Seq<EntrySummary> {
    v.map_values(|s: Option<ZipEntrySummary>| summary_view(s))
}

fn join_lines(lines: &Vec<String>) -> (r: String)
    ensures
        r@ == joined(crate::text::string_views(lines@)),
{
    let ghost lv = crate::text::string_views(lines@);
    let mut r = String::new();
    let n = lines.len();
    for i in 0..n
        invariant
            n == lines@.len(),
            lv == crate::text::string_views(lines@),
            r@ == joined(lv.take(i as int)),
    {
        assert(lv.take(i + 1).drop_last() == lv.take(i as int));
        assert(lv.take(i + 1).last() == lines@[i as int]@);
        if i > 0 {
            push_str(&mut r, "\n");
        } else {
            assert(joined(lv.take(0)) == Seq::<char>::empty());
            assert(Seq::<char>::empty() + lines@[0]@ == lines@[0]@);
        }
        push_str(&mut r, lines[i].as_str());
    }
    assert(lv.take(n as int) == lv);
    r
}

/// The preview text from the first entries `shown` of an archive of `total`
/// entries (see `listing_text`).
pub fn format_zip_listing(
    display: &str,
    shown: &Vec<Option<ZipEntrySummary>>,
    total: usize,
    texts: &ZipTexts,
) -> (r: Option<String>)
    ensures
        match listing_text(display@, summary_views(shown@), total as nat, texts.empty@, texts.header@, texts.encrypted@, texts.more@) {
            Some(t) => r matches Some(s) && s@ == t,
            None => r is None,
        },
{
    if total == 0 {
        return Some(String::from_str(texts.empty));
    }
    let ghost es = summary_views(shown@);
    let mut header = String::from_str(texts.header);
    push_str(&mut header, display);
    let ghost h = header@;
    let mut lines: Vec<String> = Vec::new();
    lines.push(header);
    lines.push(String::new());
    assert(crate::text::string_views(lines@) == seq![h, Seq::<char>::empty()]);
    let k = shown.len();
    for index in 0..k
        invariant
            total > 0,
            k == shown@.len(),
            es == summary_views(shown@),
            h == texts.header@ + display@,
            scan(es, h, index as nat) == Scan::Lines(crate::text::string_views(lines@)),
    {
        assert(es[index as int] == summary_view(shown@[index as int]));
        match &shown[index] {
            None => {
                proof {
                    lemma_scan_stays(es, h, (index + 1) as nat, k as nat);
                }
                return None;
            },
            Some(entry) => {
                if entry.encrypted {
                    proof {
                        lemma_scan_stays(es, h, (index + 1) as nat, k as nat);
                    }
                    return Some(String::from_str(texts.encrypted));
                }
                match &entry.name {
                    None => {
                        proof {
                            lemma_scan_stays(es, h, (index + 1) as nat, k as nat);
                        }
                        return None;
                    },
                    Some(name) => {
                        let mut line = String::from_str(if entry.is_dir { "[DIR] " } else { "[FILE] " });
                        push_str(&mut line, name.as_str());
                        let ghost before = crate::text::string_views(lines@);
                        lines.push(line);
                        assert(crate::text::string_views(lines@) == before.push(line@));
                    },
                }
            },
        }
    }
    if total > 40 {
        let ghost before = crate::text::string_views(lines@);
        lines.push(String::from_str(texts.more));
        assert(crate::text::string_views(lines@) == before.push(texts.more@));
    }
    Some(join_lines(&lines))
}

/// The preview of the archive in `bytes`, shown as `display` (see
/// `zip_preview_text`); an error carries the `zip` crate's message.
pub fn zip_preview(display: &str, bytes: Vec<u8>, texts: &ZipTexts) -> (r: Result<String, String>)
    ensures
        match zip_listing(bytes@) {
            None => r is Err,
            Some(es) => match zip_preview_text(display@, es, texts.empty@, texts.header@, texts.encrypted@, texts.more@) {
                Some(t) => r matches Ok(s) && s@ == t,
                None => r is Err,
            },
        },
{
    let ghost listing = zip_listing(bytes@);
    let mut archive = match open_archive(bytes) {
        Ok(a) => a,
        Err(error) => {
            return Err(zip_error_message(&error));
        },
    };
    let ghost es = zip_entries(archive);
    let ghost h = texts.header@ + display@;
    let total = archive_len(&archive);
    let k: usize = if total < 40 { total } else { 40 };
    let mut shown: Vec<Option<ZipEntrySummary>> = Vec::new();
    let mut failure: Option<String> = None;
    let mut stopped = false;
    let mut index: usize = 0;
    while index < k && !stopped
        invariant
            k == shown_count(total as nat),
            total == es.len(),
            index <= k,
            zip_entries(archive) == es,
            summary_views(shown@) == es.take(index as int),
            stopped ==> !(scan(es, h, index as nat) is Lines),
        decreases k - index,
    {
        let ghost before = summary_views(shown@);
        match archive_entry(&mut archive, index) {
            Ok(info) => {
                let name = match info.name {
                    Ok(n) => Some(n),
                    Err(error) => {
                        failure = Some(zip_error_message(&error));
                        None
                    },
                };
                let summary = ZipEntrySummary { encrypted: info.encrypted, is_dir: info.is_dir, name };
                stopped = summary.encrypted || summary.name.is_none();
                shown.push(Some(summary));
            },
            Err(error) => {
                failure = Some(zip_error_message(&error));
                shown.push(None);
                stopped = true;
            },
        }
        assert(summary_views(shown@) == before.push(summary_view(shown@[index as int])));
        assert(es.take(index + 1) == es.take(index as int).push(es[index as int]));
        proof {
            lemma_scan_prefix(es, h, index as nat, (index + 1) as nat);
            lemma_scan_prefix(es, h, (index + 1) as nat, (index + 1) as nat);
        }
        index = index + 1;
    }
    proof {
        if stopped {
            lemma_scan_stays(es, h, index as nat, k as nat);
        }
        lemma_scan_prefix(es, h, index as nat, index as nat);
        lemma_scan_prefix(es, h, k as nat, k as nat);
        assert(es.take(index as int).len() == index);
    }
    match format_zip_listing(display, &shown, total, texts) {
        Some(text) => Ok(text),
        None => match failure {
            Some(message) => Err(message),
            None => Err(String::new()),
        },
    }
}

/// Reading the first `j` entries looks at no entry past them.
pub proof fn lemma_scan_prefix(es: Seq<EntrySummary>, header: Seq<char>, j: nat, m: nat)
    requires
        j <= m <= es.len(),
    ensures
        scan(es.take(m as int), header, j) == scan(es, header, j),
    decreases j,
{
    if j > 0 {
        lemma_scan_prefix(es, header, (j - 1) as nat, m);
        assert(es.take(m as int)[j - 1] == es[j - 1]);
    }
}

/// Once reading stops at an encrypted or unreadable entry, reading further
/// entries changes nothing.
pub proof fn lemma_scan_stays(es: Seq<EntrySummary>, header: Seq<char>, k: nat, m: nat)
    requires
        k <= m,
        !(scan(es, header, k) is Lines),
    ensures
        scan(es, header, m) == scan(es, header, k),
    decreases m - k,
{
    if k < m {
        lemma_scan_stays(es, header, k, (m - 1) as nat);
    }
}

} // verus!
