//! Log bundles: zip archives whose entries are read as lines of text.
use std::io::Cursor;
use std::io::Read;
use vstd::prelude::*;
use crate::classify::strings_view;
use crate::pattern::{regex_is_match, Matcher};
use crate::scan::LogEntry;

verus! {

/// What `String::from_utf8` makes of `b`: `None` when `b` is not UTF-8.
pub uninterp spec fn utf8_text(b: Seq<u8>) -> Option<Seq<char>>;

/// Relies on `String::from_utf8`: the text `b` encodes, if it is UTF-8.
#[verifier::external_body]
fn decode_utf8(b: Vec<u8>) -> (r: Option<String>)
    ensures
        utf8_text(b@) == match r {
            Some(s) => Some(s@),
            None => None::<Seq<char>>,
        },
{
    String::from_utf8(b).ok()
}

/// A line without the carriage return that ended it, if any.
pub open spec fn strip_cr(line: Seq<u8>) -> Seq<u8> {
    if line.len() > 0 && line.last() == 13u8 {
        line.drop_last()
    } else {
        line
    }
}

/// After reading `b`: the lines ended by a newline, each without its line
/// ending, and the bytes read since the last newline.
pub open spec fn split_state(b: Seq<u8>) -> (Seq<Seq<u8>>, Seq<u8>)
    decreases b.len(),
{
    if b.len() == 0 {
        (Seq::empty(), Seq::empty())
    } else {
        let (done, cur) = split_state(b.drop_last());
        if b.last() == 10u8 {
            (done.push(strip_cr(cur)), Seq::empty())
        } else {
            (done, cur.push(b.last()))
        }
    }
}

/// The lines of `b` as bytes: split at each newline, a carriage return
/// before the newline dropped, and a last line without newline kept as it is.
pub open spec fn raw_lines(b: Seq<u8>) -> Seq<Seq<u8>> {
    let (done, cur) = split_state(b);
    if cur.len() > 0 {
        done.push(cur)
    } else {
        done
    }
}

/// The lines that decode as UTF-8, in order; the others are skipped.
pub open spec fn decoded(lines: Seq<Seq<u8>>) -> Seq<Seq<char>>
    decreases lines.len(),
{
    if lines.len() == 0 {
        Seq::empty()
    } else {
        let rest = decoded(lines.drop_last());
        match utf8_text(lines.last()) {
            Some(s) => rest.push(s),
            None => rest,
        }
    }
}

/// The text lines of an entry's bytes.
pub open spec fn text_lines(b: Seq<u8>) -> Seq<Seq<char>> {
    decoded(raw_lines(b))
}

proof fn lemma_decoded_push(lines: Seq<Seq<u8>>, line: Seq<u8>)
    ensures
        decoded(lines.push(line)) == match utf8_text(line) {
            Some(s) => decoded(lines).push(s),
            None => decoded(lines),
        },
{
    assert(lines.push(line).drop_last() =~= lines);
}

/// Splits an entry's bytes into lines of text, skipping lines that are not
/// UTF-8.
pub fn text_lines_of(bytes: &Vec<u8>) -> (r: Vec<String>)
    ensures
        strings_view(r@) == text_lines(bytes@),
{
    let ghost b = bytes@;
    let ghost mut done: Seq<Seq<u8>> = Seq::empty();
    let mut cur: Vec<u8> = Vec::new();
    let mut lines: Vec<String> = Vec::new();
    let mut i: usize = 0;
    proof {
        assert(b.take(0) =~= Seq::<u8>::empty());
        assert(strings_view(lines@) =~= decoded(done));
    }
    while i < bytes.len()
        invariant
            0 <= i <= bytes.len(),
            b == bytes@,
            split_state(b.take(i as int)) == (done, cur@),
            strings_view(lines@) == decoded(done),
        decreases bytes.len() - i,
    {
        let byte = bytes[i];
        proof {
            assert(b.take(i + 1).drop_last() =~= b.take(i as int));
            assert(b.take(i + 1).last() == byte);
        }
        if byte == 10u8 {
            let n = cur.len();
            if n > 0 && cur[n - 1] == 13u8 {
                cur.pop();
            }
            let ghost piece = cur@;
            proof {
                assert(piece == strip_cr(split_state(b.take(i as int)).1));
                lemma_decoded_push(done, piece);
                done = done.push(piece);
            }
            let finished = cur;
            cur = Vec::new();
            match decode_utf8(finished) {
                Some(s) => {
                    lines.push(s);
                    proof {
                        assert(strings_view(lines@) =~= decoded(done));
                    }
                },
                None => {},
            }
        } else {
            cur.push(byte);
        }
        i += 1;
    }
    proof {
        assert(b.take(bytes.len() as int) =~= b);
    }
    if cur.len() > 0 {
        let ghost piece = cur@;
        proof {
            lemma_decoded_push(done, piece);
        }
        match decode_utf8(cur) {
            Some(s) => {
                lines.push(s);
                proof {
                    assert(strings_view(lines@) =~= decoded(done.push(piece)));
                }
            },
            None => {},
        }
    }
    lines
}

#[verifier::external_type_specification]
#[verifier::external_body]
#[verifier::reject_recursive_types(T)]
pub struct ExCursor<T>(std::io::Cursor<T>);

#[verifier::external_type_specification]
#[verifier::external_body]
#[verifier::reject_recursive_types(R)]
pub struct ExZipArchive<R>(zip::ZipArchive<R>);

#[verifier::external_type_specification]
#[verifier::external_body]
pub struct ExZipError(zip::result::ZipError);

/// The entries of an opened archive, in archive order. For each: its name,
/// `None` where the crate cannot give it, and its decompressed bytes, `None`
/// where the crate cannot read them.
pub uninterp spec fn archive_entries(a: zip::ZipArchive<Cursor<Vec<u8>>>) -> Seq<(Option<Seq<char>>, Option<Seq<u8>>)>;

/// What `zip::ZipArchive::new` finds in `bundle`: `None` if it refuses the
/// bytes, else the entries of the archive they hold.
pub uninterp spec fn unzipped(bundle: Seq<u8>) -> Option<Seq<(Option<Seq<char>>, Option<Seq<u8>>)>>;

/// Relies on `zip::ZipArchive::new`: reads the central directory of the
/// archive held in `bundle`, failing if it is not a zip archive.
#[verifier::external_body]
fn open_archive(bundle: Vec<u8>) -> (r: Result<zip::ZipArchive<Cursor<Vec<u8>>>, zip::result::ZipError>)
    ensures
        r is Ok <==> unzipped(bundle@) is Some,
        r matches Ok(a) ==> unzipped(bundle@) == Some(archive_entries(a)),
{
    zip::ZipArchive::new(Cursor::new(bundle))
}

/// Relies on `zip::ZipArchive::len`: the number of entries.
#[verifier::external_body]
fn entry_count(a: &zip::ZipArchive<Cursor<Vec<u8>>>) -> (r: usize)
    ensures
        r == archive_entries(*a).len(),
{
    a.len()
}

/// Relies on `zip::ZipArchive::by_index` and `ZipFile::name`: the name of
/// entry `i`. Opening an entry moves the archive's cursor only, not its
/// entries.
#[verifier::external_body]
fn entry_name(a: &mut zip::ZipArchive<Cursor<Vec<u8>>>, i: usize) -> (r: Result<String, zip::result::ZipError>)
    requires
        i < archive_entries(*old(a)).len(),
    ensures
        archive_entries(*final(a)) == archive_entries(*old(a)),
        r is Ok <==> archive_entries(*old(a))[i as int].0 is Some,
        r matches Ok(name) ==> archive_entries(*old(a))[i as int].0 == Some(name@),
{
    let file = a.by_index(i)?;
    let name = file.name()?.to_string();
    Ok(name)
}

/// Relies on `zip::ZipArchive::by_index` and `Read::read_to_end` on the entry
/// it gives: the decompressed bytes of entry `i`.
#[verifier::external_body]
fn entry_bytes(a: &mut zip::ZipArchive<Cursor<Vec<u8>>>, i: usize) -> (r: Result<Vec<u8>, zip::result::ZipError>)
    requires
        i < archive_entries(*old(a)).len(),
    ensures
        archive_entries(*final(a)) == archive_entries(*old(a)),
        r is Ok <==> archive_entries(*old(a))[i as int].1 is Some,
        r matches Ok(bytes) ==> archive_entries(*old(a))[i as int].1 == Some(bytes@),
{
    let mut file = a.by_index(i)?;
    let mut bytes = Vec::new();
    file.read_to_end(&mut bytes)?;
    Ok(bytes)
}

/// Relies on `ZipError`'s `Display` text, to report why an archive could not
/// be read.
#[verifier::external_body]
fn zip_error_message(e: &zip::result::ZipError) -> (r: String) {
    e.to_string()
}

/// Why a log bundle could not be read.
pub struct ArchiveError {
    pub message: String,
}

/// Whether an entry has a name that `selector` matches.
pub open spec fn entry_selected(selector: Seq<char>, e: (Option<Seq<char>>, Option<Seq<u8>>)) -> bool {
    e.0 is Some && regex_is_match(selector, e.0.unwrap())
}

/// Whether every entry's name can be read, and the bytes of every selected
/// entry.
pub open spec fn all_readable(selector: Seq<char>, c: Seq<(Option<Seq<char>>, Option<Seq<u8>>)>) -> bool {
    forall|i: int|
        0 <= i < c.len() ==> (#[trigger] c[i]).0 is Some && (entry_selected(selector, c[i]) ==> c[i].1 is Some)
}

/// The selected entries, in archive order, as name and bytes.
pub open spec fn wanted(selector: Seq<char>, c: Seq<(Option<Seq<char>>, Option<Seq<u8>>)>) -> Seq<(Seq<char>, Seq<u8>)>
    decreases c.len(),
{
    if c.len() == 0 {
        Seq::empty()
    } else {
        let rest = wanted(selector, c.drop_last());
        if entry_selected(selector, c.last()) {
            rest.push((c.last().0.unwrap(), c.last().1.unwrap()))
        } else {
            rest
        }
    }
}

/// Whether `entries` are the entries `w`, each read as lines of text.
pub open spec fn entries_match(entries: Seq<LogEntry>, w: Seq<(Seq<char>, Seq<u8>)>) -> bool {
    &&& entries.len() == w.len()
    &&& forall|i: int|
        0 <= i < entries.len() ==> (#[trigger] entries[i]).name@ == w[i].0 && strings_view(entries[i].lines@)
            == text_lines(w[i].1)
}

/// Opens a log bundle and reads, in archive order, each entry whose name
/// `selector` matches, as lines of text. Succeeds exactly when the bundle is
/// a zip archive whose entry names can all be read and whose selected entries
/// can all be decompressed.
pub fn read_entries(bundle: Vec<u8>, selector: &Matcher) -> (r: Result<Vec<LogEntry>, ArchiveError>)
    ensures
        r is Ok <==> (unzipped(bundle@) matches Some(c) && all_readable(selector.source(), c)),
        r matches Ok(es) ==> unzipped(bundle@) matches Some(c) && entries_match(
            es@,
            wanted(selector.source(), c),
        ),
{
    let ghost b = bundle@;
    let mut archive = match open_archive(bundle) {
        Ok(a) => a,
        Err(e) => return Err(ArchiveError { message: zip_error_message(&e) }),
    };
    let ghost contents = archive_entries(archive);
    let ghost sel = selector.source();
    assert(unzipped(b) == Some(contents));
    let n = entry_count(&archive);
    let mut entries: Vec<LogEntry> = Vec::new();
    let mut i: usize = 0;
    while i < n
        invariant
            0 <= i <= n,
            n == contents.len(),
            unzipped(b) == Some(contents),
            b == bundle@,
            sel == selector.source(),
            archive_entries(archive) == contents,
            entries_match(entries@, wanted(sel, contents.take(i as int))),
            forall|j: int|
                0 <= j < i ==> (#[trigger] contents[j]).0 is Some && (entry_selected(sel, contents[j])
                    ==> contents[j].1 is Some),
        decreases n - i,
    {
        proof {
            assert(contents.take(i + 1).drop_last() =~= contents.take(i as int));
            assert(contents.take(i + 1).last() == contents[i as int]);
        }
        let name = match entry_name(&mut archive, i) {
            Ok(name) => name,
            Err(e) => {
                proof {
                    assert(!all_readable(sel, contents)) by {
                        assert(contents[i as int].0 is None);
                    }
                }
                return Err(ArchiveError { message: zip_error_message(&e) });
            },
        };
        if selector.is_match(name.as_str()) {
            let bytes = match entry_bytes(&mut archive, i) {
                Ok(bytes) => bytes,
                Err(e) => {
                    proof {
                        assert(!all_readable(sel, contents)) by {
                            assert(entry_selected(sel, contents[i as int]));
                            assert(contents[i as int].1 is None);
                        }
                    }
                    return Err(ArchiveError { message: zip_error_message(&e) });
                },
            };
            let lines = text_lines_of(&bytes);
            entries.push(LogEntry { name, lines });
            proof {
                let w = wanted(sel, contents.take(i + 1));
                assert(w == wanted(sel, contents.take(i as int)).push((name@, bytes@)));
                assert forall|j: int| 0 <= j < entries@.len() implies (#[trigger] entries@[j]).name@ == w[j].0
                    && strings_view(entries@[j].lines@) == text_lines(w[j].1) by {
                    if j < i {
                    }
                }
            }
        }
        i += 1;
    }
    proof {
        assert(contents.take(n as int) =~= contents);
        assert(all_readable(sel, contents));
    }
    Ok(entries)
}

} // verus!
