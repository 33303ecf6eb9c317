//! Reading a directory of dashboards: which of its files are read, in what order, and
//! how much of them.
//!
//! A ConfigMap update lands as an atomic symlink swap of the directory, so the
//! directory is read anew for each scan.

use crate::config::Limits;
use crate::entry;
use crate::text;
use vstd::prelude::*;

verus! {

/// Whether a name has the given ending, and something before it.
pub open spec fn has_ending(name: Seq<u8>, ending: Seq<u8>) -> bool {
    name.len() > ending.len() && name.skip(name.len() - ending.len()) == ending
}

/// Whether a file name starts with a dot. The projection's own `..data` and
/// timestamped directories do. A name that is no text is not taken for one.
pub open spec fn is_hidden(name: Seq<u8>) -> bool {
    vstd::utf8::valid_utf8(name) && name.len() > 0 && name[0] == 46u8
}

/// Whether the file of this name is read as a dashboard: its extension is `yaml` or
/// `yml`, and it is not hidden.
pub open spec fn is_dashboard_name(name: Seq<u8>) -> bool {
    &&& !is_hidden(name)
    &&& has_ending(name, seq![46u8, 121u8, 97u8, 109u8, 108u8]) || has_ending(
        name,
        seq![46u8, 121u8, 109u8, 108u8],
    )
}

/// Which files of a directory are read.
#[derive(Debug, Clone, Copy, PartialEq, Eq, Structural)]
pub enum Kind {
    /// The dashboards of the mounted directory.
    Mounted,
    /// The sources of the embedded dashboards: all that has the extension `yaml`.
    Embedded,
}

impl Kind {
    /// Whether the file of this name is read.
    pub open spec fn admits(self, name: Seq<u8>) -> bool {
        match self {
            Kind::Mounted => is_dashboard_name(name),
            Kind::Embedded => has_ending(name, seq![46u8, 121u8, 97u8, 109u8, 108u8]),
        }
    }
}

/// Calls `core::str::from_utf8`, which accepts the bytes that are valid UTF-8 and no
/// others.
#[verifier::external_body]
fn is_utf8(bytes: &[u8]) -> (r: bool)
    ensures
        r == vstd::utf8::valid_utf8(bytes@),
{
    core::str::from_utf8(bytes).is_ok()
}

/// Whether a name has the given ending, and something before it.
fn ends_with(name: &[u8], ending: &[u8]) -> (r: bool)
    ensures
        r == has_ending(name@, ending@),
{
    if name.len() <= ending.len() {
        return false;
    }
    let start: usize = name.len() - ending.len();
    let mut i: usize = 0;
    while i < ending.len()
        invariant
            i <= ending.len() < name.len(),
            start == name.len() - ending.len(),
            forall|k: int| 0 <= k < i ==> name@[start + k] == ending@[k],
        decreases ending.len() - i,
    {
        if name[start + i] != ending[i] {
            assert(name@.skip(start as int)[i as int] != ending@[i as int]);
            return false;
        }
        i = i + 1;
    }
    assert(name@.skip(start as int) =~= ending@);
    true
}

/// Whether a name has the extension `yaml`.
fn is_yaml(name: &[u8]) -> (r: bool)
    ensures
        r == has_ending(name@, seq![46u8, 121u8, 97u8, 109u8, 108u8]),
{
    let yaml: [u8; 5] = [46u8, 121u8, 97u8, 109u8, 108u8];
    assert(yaml@ =~= seq![46u8, 121u8, 97u8, 109u8, 108u8]);
    ends_with(name, yaml.as_slice())
}

/// Whether the file of this name is read as a dashboard.
pub fn is_dashboard_file(name: &[u8]) -> (r: bool)
    ensures
        r == is_dashboard_name(name@),
{
    if name.len() > 0 && name[0] == 46u8 && is_utf8(name) {
        return false;
    }
    let yml: [u8; 4] = [46u8, 121u8, 109u8, 108u8];
    assert(yml@ =~= seq![46u8, 121u8, 109u8, 108u8]);
    is_yaml(name) || ends_with(name, yml.as_slice())
}

/// Whether the file listed at `a` is read before the file listed at `b`: by their
/// names, and of two equal names the one listed first.
pub open spec fn reads_before(names: Seq<Seq<u8>>, a: int, b: int) -> bool {
    text::bytes_before(names[a], names[b]) || (names[a] == names[b] && a < b)
}

/// Whether `order` holds the places of the files that are read among the first `n`
/// listed names, in the order in which they are read.
pub open spec fn is_order_of_first(
    kind: Kind,
    names: Seq<Seq<u8>>,
    order: Seq<usize>,
    n: int,
) -> bool {
    &&& forall|k: int|
        0 <= k < order.len() ==> (#[trigger] order[k]) < n && kind.admits(names[order[k] as int])
    &&& forall|i: int|
        0 <= i < n && #[trigger] kind.admits(names[i]) ==> order.contains(i as usize)
    &&& forall|j: int, k: int|
        0 <= j < k < order.len() ==> reads_before(
            names,
            (#[trigger] order[j]) as int,
            (#[trigger] order[k]) as int,
        )
}

/// Whether `order` holds the places of the files that are read among the listed
/// names, in the order in which they are read.
pub open spec fn is_reading_order(kind: Kind, names: Seq<Seq<u8>>, order: Seq<usize>) -> bool {
    is_order_of_first(kind, names, order, names.len() as int)
}

/// How many of the places in `order` are read no later than place `i`.
fn place_in(kind: Kind, names: &Vec<Vec<u8>>, order: &Vec<usize>, i: usize) -> (r: usize)
    requires
        i < names.len(),
        is_order_of_first(kind, text::views(names@), order@, i as int),
    ensures
        r <= order.len(),
        forall|k: int|
            0 <= k < r ==> reads_before(
                text::views(names@),
                (#[trigger] order@[k]) as int,
                i as int,
            ),
        forall|k: int|
            r <= k < order.len() ==> reads_before(
                text::views(names@),
                i as int,
                (#[trigger] order@[k]) as int,
            ),
{
    let ghost all = text::views(names@);
    let mut low: usize = 0;
    let mut high: usize = order.len();
    while low < high
        invariant
            low <= high <= order.len(),
            i < names.len(),
            all == text::views(names@),
            is_order_of_first(kind, all, order@, i as int),
            forall|k: int|
                0 <= k < low ==> reads_before(all, (#[trigger] order@[k]) as int, i as int),
            forall|k: int|
                high <= k < order.len() ==> reads_before(
                    all,
                    i as int,
                    (#[trigger] order@[k]) as int,
                ),
        decreases high - low,
    {
        let middle: usize = low + (high - low) / 2;
        let there: usize = order[middle];
        if text::is_bytes_before(names[i].as_slice(), names[there].as_slice()) {
            assert forall|k: int| middle <= k < order.len() implies reads_before(
                all,
                i as int,
                (#[trigger] order@[k]) as int,
            ) by {
                if k > middle {
                    assert(reads_before(all, there as int, order@[k] as int));
                    if all[there as int] != all[order@[k] as int] {
                        text::lemma_bytes_before_transitive(
                            all[i as int],
                            all[there as int],
                            all[order@[k] as int],
                        );
                    }
                }
            }
            high = middle;
        } else {
            proof {
                text::lemma_bytes_before_total(all[i as int], all[there as int]);
            }
            assert forall|k: int| 0 <= k < middle + 1 implies reads_before(
                all,
                (#[trigger] order@[k]) as int,
                i as int,
            ) by {
                if k < middle {
                    assert(reads_before(all, order@[k] as int, there as int));
                    if text::bytes_before(all[order@[k] as int], all[there as int])
                        && text::bytes_before(all[there as int], all[i as int]) {
                        text::lemma_bytes_before_transitive(
                            all[order@[k] as int],
                            all[there as int],
                            all[i as int],
                        );
                    }
                }
            }
            low = middle + 1;
        }
    }
    low
}

/// The places of the files that are read among the names of a directory, in the
/// order in which they are read.
pub fn reading_order(kind: Kind, names: &Vec<Vec<u8>>) -> (r: Vec<usize>)
    ensures
        is_reading_order(kind, text::views(names@), r@),
{
    let ghost all = text::views(names@);
    let mut order: Vec<usize> = Vec::new();
    let mut i: usize = 0;
    while i < names.len()
        invariant
            i <= names.len(),
            all == text::views(names@),
            is_order_of_first(kind, all, order@, i as int),
        decreases names.len() - i,
    {
        let ghost before = order@;
        assert(all[i as int] == names@[i as int]@);
        let admitted = match kind {
            Kind::Mounted => is_dashboard_file(names[i].as_slice()),
            Kind::Embedded => is_yaml(names[i].as_slice()),
        };
        if admitted {
            let p: usize = place_in(kind, names, &order, i);
            order.insert(p, i);
            proof {
                assert forall|k: int| 0 <= k < order@.len() implies (#[trigger] order@[k]) < i + 1
                    && kind.admits(all[order@[k] as int]) by {
                    if k < p {
                        assert(order@[k] == before[k]);
                    } else if k > p {
                        assert(order@[k] == before[k - 1]);
                    }
                }
                assert forall|n: int|
                    0 <= n < i + 1 && #[trigger] kind.admits(
                        all[n],
                    ) implies order@.contains(n as usize) by {
                    if n == i {
                        assert(order@[p as int] == n);
                    } else {
                        assert(before.contains(n as usize));
                        let k = choose|k: int| 0 <= k < before.len() && before[k] == n as usize;
                        assert(order@[if k < p { k } else { k + 1 }] == n as usize);
                    }
                }
                assert forall|j: int, k: int| 0 <= j < k < order@.len() implies reads_before(
                    all,
                    (#[trigger] order@[j]) as int,
                    (#[trigger] order@[k]) as int,
                ) by {
                    let old_j: int = if j < p {
                        j
                    } else {
                        j - 1
                    };
                    let old_k: int = if k < p {
                        k
                    } else {
                        k - 1
                    };
                    if j != p {
                        assert(order@[j] == before[old_j]);
                    }
                    if k != p {
                        assert(order@[k] == before[old_k]);
                    }
                }
            }
        }
        i = i + 1;
    }
    order
}

/// Enough of a file to tell a rescan that nothing on disk moved.
#[derive(Debug, Clone, PartialEq, Eq)]
pub struct Stamp {
    pub path: String,
    /// The time of the last change, in nanoseconds since the Unix epoch.
    pub modified: i128,
    pub len: u64,
}

/// What a [`Stamp`] stands for.
#[verifier::ext_equal]
pub struct StampView {
    pub path: Seq<char>,
    pub modified: i128,
    pub len: u64,
}

impl View for Stamp {
    type V = StampView;

    open spec fn view(&self) -> StampView {
        StampView { path: self.path@, modified: self.modified, len: self.len }
    }
}

/// The text of a file.
#[derive(Debug, Clone, PartialEq, Eq)]
pub struct FileText {
    pub path: String,
    pub text: String,
}

/// What a [`FileText`] stands for.
#[verifier::ext_equal]
pub struct FileTextView {
    pub path: Seq<char>,
    pub text: Seq<char>,
}

impl View for FileText {
    type V = FileTextView;

    open spec fn view(&self) -> FileTextView {
        FileTextView { path: self.path@, text: self.text@ }
    }
}

/// What was read of the directory.
#[derive(Debug, PartialEq, Eq)]
pub struct Scan {
    pub files: Vec<FileText>,
    pub fingerprint: Vec<Stamp>,
    /// The files over the limit for one file, which were not read.
    pub oversized: Vec<String>,
}

/// What a [`Scan`] stands for.
#[verifier::ext_equal]
pub struct ScanView {
    pub files: Seq<FileTextView>,
    pub fingerprint: Seq<StampView>,
    pub oversized: Seq<Seq<char>>,
}

impl View for Scan {
    type V = ScanView;

    open spec fn view(&self) -> ScanView {
        ScanView {
            files: text::views(self.files@),
            fingerprint: text::views(self.fingerprint@),
            oversized: text::views(self.oversized@),
        }
    }
}

/// What to do with a file.
#[derive(Debug, Clone, Copy, PartialEq, Eq, Structural)]
pub enum Verdict {
    /// Read it.
    Read,
    /// Pass it over: its size is not to be had, or is over the limit for one file.
    PassOver,
    /// Give the whole scan up: the directory is over its limit.
    Abort,
}

/// A directory being read.
#[derive(Debug)]
pub struct DirectoryReader {
    limits: Limits,
    total: u64,
    scan: Scan,
}

/// What a [`DirectoryReader`] stands for.
#[verifier::ext_equal]
pub struct ReaderView {
    pub limits: Limits,
    /// The bytes of the files measured so far, as 64 bits count them.
    pub total: u64,
    pub scan: ScanView,
}

impl View for DirectoryReader {
    type V = ReaderView;

    closed spec fn view(&self) -> ReaderView {
        ReaderView { limits: self.limits, total: self.total, scan: self.scan@ }
    }
}

/// The sum of two counts of bytes, which stays at the largest count.
pub open spec fn saturated(a: u64, b: u64) -> u64 {
    if a + b > u64::MAX {
        u64::MAX
    } else {
        (a + b) as u64
    }
}

impl ReaderView {
    /// A directory of which nothing was read yet.
    pub open spec fn start(limits: Limits) -> ReaderView {
        ReaderView {
            limits,
            total: 0,
            scan: ScanView {
                files: Seq::empty(),
                fingerprint: Seq::empty(),
                oversized: Seq::empty(),
            },
        }
    }

    /// The bytes of the files measured so far, with the next one. A file whose size is
    /// not to be had does not count.
    pub open spec fn counted(self, len: Option<u64>) -> u64 {
        match len {
            Some(n) => saturated(self.total, n),
            None => self.total,
        }
    }

    /// Whether the next file is over the limit for one file.
    pub open spec fn is_oversized(self, len: Option<u64>) -> bool {
        match len {
            Some(n) => n > self.limits.max_dashboard_bytes,
            None => false,
        }
    }

    /// What to do with the next file, given its size.
    pub open spec fn verdict(self, len: Option<u64>) -> Verdict {
        if len is Some && self.counted(len) > self.limits.max_directory_bytes {
            Verdict::Abort
        } else if len is None || self.is_oversized(len) {
            Verdict::PassOver
        } else {
            Verdict::Read
        }
    }

    /// The reading after the next file was measured.
    pub open spec fn measured(self, path: Seq<char>, len: Option<u64>) -> ReaderView {
        ReaderView {
            total: self.counted(len),
            scan: if self.is_oversized(len) && self.verdict(len) != Verdict::Abort {
                ScanView { oversized: self.scan.oversized.push(path), ..self.scan }
            } else {
                self.scan
            },
            ..self
        }
    }

    /// The reading after a file was read. One that cannot be read is left out, and one
    /// whose time is not known counts as one of the Unix epoch.
    pub open spec fn accepted(
        self,
        path: Seq<char>,
        text: Option<Seq<char>>,
        modified: Option<i128>,
        len: u64,
    ) -> ReaderView {
        match text {
            Some(text) => ReaderView {
                scan: ScanView {
                    files: self.scan.files.push(FileTextView { path, text }),
                    fingerprint: self.scan.fingerprint.push(
                        StampView {
                            path,
                            modified: match modified {
                                Some(m) => m,
                                None => 0,
                            },
                            len,
                        },
                    ),
                    ..self.scan
                },
                ..self
            },
            None => self,
        }
    }
}

impl DirectoryReader {
    /// A directory of which nothing was read yet.
    pub fn new(limits: &Limits) -> (r: Self)
        ensures
            r@ == ReaderView::start(*limits),
    {
        let r = DirectoryReader {
            limits: *limits,
            total: 0,
            scan: Scan { files: Vec::new(), fingerprint: Vec::new(), oversized: Vec::new() },
        };
        assert(r@ =~= ReaderView::start(*limits));
        r
    }

    /// Counts the next file by its size, if that is to be had, and says what to do
    /// with the file.
    pub fn measure(&mut self, path: &str, len: Option<u64>) -> (r: Verdict)
        ensures
            r == old(self)@.verdict(len),
            final(self)@ == old(self)@.measured(path@, len),
    {
        let ghost before = self@;
        let len: u64 = match len {
            Some(n) => n,
            None => {
                return Verdict::PassOver;
            },
        };
        self.total = self.total.saturating_add(len);
        if self.total > self.limits.max_directory_bytes {
            return Verdict::Abort;
        }
        if len > self.limits.max_dashboard_bytes {
            self.scan.oversized.push(path.to_owned());
            assert(text::views(self.scan.oversized@) =~= before.scan.oversized.push(path@));
            return Verdict::PassOver;
        }
        Verdict::Read
    }

    /// Takes the text of a file, if it could be read.
    pub fn accept(
        &mut self,
        path: String,
        text: Option<String>,
        modified: Option<i128>,
        len: u64,
    )
        ensures
            final(self)@ == old(self)@.accepted(path@, entry::optional(text), modified, len),
    {
        let ghost before = self@;
        if let Some(text) = text {
            let modified: i128 = match modified {
                Some(m) => m,
                None => 0,
            };
            let stamp = Stamp { path: path.clone(), modified, len };
            self.scan.fingerprint.push(stamp);
            let file = FileText { path, text };
            self.scan.files.push(file);
            assert(text::views(self.scan.fingerprint@) =~= before.scan.fingerprint.push(stamp@));
            assert(text::views(self.scan.files@) =~= before.scan.files.push(file@));
        }
    }

    /// What was read of the directory.
    pub fn finish(self) -> (r: Scan)
        ensures
            r@ == self@.scan,
    {
        self.scan
    }
}

} // verus!
