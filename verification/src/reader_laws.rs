//! What holds of the files of a directory that are read.

use crate::reader;
use crate::reader::{FileTextView, Kind, ReaderView, StampView, Verdict};
use crate::text;
use vstd::prelude::*;

verus! {

/// Whether a name is something, and then the given ending.
pub open spec fn is_with_ending(name: Seq<u8>, ending: Seq<u8>) -> bool {
    exists|stem: Seq<u8>| stem.len() > 0 && name == #[trigger] (stem + ending)
}

/// The bytes of `.yaml`.
pub open spec fn dot_yaml() -> Seq<u8> {
    seq!['.' as u8, 'y' as u8, 'a' as u8, 'm' as u8, 'l' as u8]
}

/// The bytes of `.yml`.
pub open spec fn dot_yml() -> Seq<u8> {
    seq!['.' as u8, 'y' as u8, 'm' as u8, 'l' as u8]
}

/// A name has an ending if and only if it is something and then that ending.
proof fn lemma_ending(name: Seq<u8>, ending: Seq<u8>)
    ensures
        reader::has_ending(name, ending) <==> is_with_ending(name, ending),
{
    if reader::has_ending(name, ending) {
        let stem = name.take(name.len() - ending.len());
        assert(name =~= stem + ending);
    }
    if is_with_ending(name, ending) {
        let stem = choose|stem: Seq<u8>| stem.len() > 0 && name == #[trigger] (stem + ending);
        assert(name.skip(name.len() - ending.len()) =~= ending);
    }
}

/// A file with a name of text that does not start with a dot is read from the mounted
/// directory whenever the name ends in `.yaml` or `.yml`, however long it is.
pub proof fn law_dashboards_are_read(stem: Seq<u8>)
    requires
        stem.len() > 0,
        stem[0] != '.' as u8,
    ensures
        Kind::Mounted.admits(stem + dot_yaml()),
        Kind::Mounted.admits(stem + dot_yml()),
        reader::is_dashboard_name(stem + dot_yaml()),
        reader::is_dashboard_name(stem + dot_yml()),
{
    law_which_files_are_read(stem + dot_yaml());
    law_which_files_are_read(stem + dot_yml());
    assert((stem + dot_yaml())[0] == stem[0]);
    assert((stem + dot_yml())[0] == stem[0]);
}

/// Of the mounted directory, the files are read whose names end in `.yaml` or `.yml`
/// after something else, and are not text that starts with a dot; no other files are. Of
/// the sources of embedded dashboards, those that end in `.yaml` after something else.
pub proof fn law_which_files_are_read(name: Seq<u8>)
    ensures
        Kind::Mounted.admits(name) <==> (is_with_ending(name, dot_yaml()) || is_with_ending(
            name,
            dot_yml(),
        )) && !(vstd::utf8::valid_utf8(name) && name[0] == '.' as u8),
        Kind::Embedded.admits(name) <==> is_with_ending(name, dot_yaml()),
        reader::is_dashboard_name(name) <==> Kind::Mounted.admits(name),
{
    let yaml = seq![46u8, 121u8, 97u8, 109u8, 108u8];
    let yml = seq![46u8, 121u8, 109u8, 108u8];
    assert(yaml =~= dot_yaml());
    assert(yml =~= dot_yml());
    lemma_ending(name, yaml);
    lemma_ending(name, yml);
}

/// A listed file is read if and only if its name asks for it, and once; the files are
/// read in the order of their names.
pub proof fn law_listed_files_are_read_in_order(
    kind: Kind,
    names: Seq<Seq<u8>>,
    order: Seq<usize>,
    i: usize,
    j: int,
    k: int,
)
    requires
        reader::is_reading_order(kind, names, order),
        names.len() <= usize::MAX,
        0 <= j < k < order.len(),
    ensures
        order.contains(i) <==> i < names.len() && kind.admits(names[i as int]),
        order[j] != order[k],
        names[order[j] as int] == names[order[k] as int] || text::bytes_before(
            names[order[j] as int],
            names[order[k] as int],
        ),
{
    law_a_file_is_read_by_its_name(kind, names, order, i);
    text::lemma_bytes_before_irreflexive(names[order[j] as int]);
    assert(reader::reads_before(names, order[j] as int, order[k] as int));
}

/// A listed file is read if and only if its name asks for it, wherever it is listed.
pub proof fn law_a_file_is_read_by_its_name(
    kind: Kind,
    names: Seq<Seq<u8>>,
    order: Seq<usize>,
    i: usize,
)
    requires
        reader::is_reading_order(kind, names, order),
    ensures
        order.contains(i) <==> i < names.len() && kind.admits(names[i as int]),
{
    if order.contains(i) {
        let n = choose|n: int| 0 <= n < order.len() && order[n] == i;
        assert(order[n] < names.len());
    }
}

/// A directory that lists one file alone reads it if and only if its name asks for it.
pub proof fn law_a_file_alone_is_read(kind: Kind, name: Seq<u8>, order: Seq<usize>)
    requires
        reader::is_reading_order(kind, seq![name], order),
    ensures
        kind.admits(name) ==> order == seq![0usize],
        !kind.admits(name) ==> order.len() == 0,
{
    let names = seq![name];
    assert(names[0] == name);
    law_a_file_is_read_by_its_name(kind, names, order, 0);
    if order.len() > 0 {
        assert(order[0] < names.len());
    }
    if order.len() > 1 {
        assert(order[1] < names.len());
        assert(reader::reads_before(names, order[0] as int, order[1] as int));
        text::lemma_bytes_before_irreflexive(name);
    }
    if kind.admits(name) {
        assert(order =~= seq![0usize]);
    }
}

/// A scan is given up at a file if and only if the files up to it, together, have more
/// bytes than the directory may have; with no bound on the directory it never is.
/// Otherwise a file is read if and only if its size is to be had and is within the limit
/// for one file.
pub proof fn law_when_a_file_is_read(r: ReaderView, size: u64)
    ensures
        r.limits.max_directory_bytes < u64::MAX ==> (r.verdict(Some(size)) == Verdict::Abort <==> r.total
            + size > r.limits.max_directory_bytes),
        r.limits.max_directory_bytes == u64::MAX ==> r.verdict(Some(size)) != Verdict::Abort,
        r.verdict(Some(size)) != Verdict::Abort ==> (r.verdict(Some(size)) == Verdict::Read <==> size
            <= r.limits.max_dashboard_bytes),
        r.verdict(None) == Verdict::PassOver,
{
}

/// Measuring a file counts its bytes, and notes its path if it is over the limit for one
/// file; it changes nothing else.
pub proof fn law_what_measuring_does(r: ReaderView, path: Seq<char>, size: u64)
    ensures
        ({
            let m = r.measured(path, Some(size));
            &&& r.total + size <= u64::MAX ==> m.total == r.total + size
            &&& r.total + size > u64::MAX ==> m.total == u64::MAX
            &&& m.limits == r.limits
            &&& m.scan.files == r.scan.files
            &&& m.scan.fingerprint == r.scan.fingerprint
            &&& r.verdict(Some(size)) == Verdict::PassOver ==> m.scan.oversized
                == r.scan.oversized.push(path)
            &&& r.verdict(Some(size)) != Verdict::PassOver ==> m.scan.oversized
                == r.scan.oversized
        }),
        r.measured(path, None) == r,
{
    assert(r.measured(path, None) =~= r);
}

/// Taking a file adds its path and text, and its path, time and size, behind those that
/// were taken before; one that could not be read adds nothing. A time that is not known
/// counts as that of the epoch.
pub proof fn law_what_taking_does(
    r: ReaderView,
    path: Seq<char>,
    text: Seq<char>,
    modified: i128,
    size: u64,
)
    ensures
        ({
            let t = r.accepted(path, Some(text), Some(modified), size);
            &&& t.scan.files == r.scan.files.push(FileTextView { path, text })
            &&& t.scan.fingerprint == r.scan.fingerprint.push(
                StampView { path, modified, len: size },
            )
            &&& t.scan.oversized == r.scan.oversized
            &&& t.total == r.total
            &&& t.limits == r.limits
        }),
        r.accepted(path, Some(text), None, size) == r.accepted(path, Some(text), Some(0), size),
        r.accepted(path, None, Some(modified), size) == r,
        r.accepted(path, None, None, size) == r,
{
}

/// A reading starts with nothing, and with the given limits.
pub proof fn law_a_reading_starts_empty(limits: crate::config::Limits)
    ensures
        ({
            let r = ReaderView::start(limits);
            &&& r.limits == limits
            &&& r.total == 0
            &&& r.scan.files.len() == 0
            &&& r.scan.fingerprint.len() == 0
            &&& r.scan.oversized.len() == 0
        }),
{
}

} // verus!
