//! Files that a session keeps for a while: their names, the room they take, and
//! the journal of uploads from which a later session cleans up.

use vstd::prelude::*;
use crate::outside::base64_bytes;
use crate::outside::base64_decode;
use crate::outside::base64_encode;
use crate::outside::base64_text;
use crate::outside::fresh_identifier;
use crate::outside::is_identifier;
use crate::outside::text_from_utf8;
use crate::path::clone_bytes;
use crate::path::FilePath;
use crate::text::ends_with;
use crate::text::starts_with;
use crate::text::strip_start;
use crate::text::text_eq;
use crate::text::trim_start_matches;
use vstd::utf8::*;

verus! {

// Paths in the journal -------------------------------------------------------

/// The text that stands for a path in the journal. The path is given as the
/// bytes that the platform keeps it in, so that one that is not UTF-8 is kept
/// too; `decode_path` gives the same bytes back.
pub fn encode_path(path: &Vec<u8>) -> (r: String)
    requires
        path@.len() <= isize::MAX / 2,
    ensures
        r@ == base64_text(path@),
        base64_bytes(r@) == Some(path@),
{
    base64_encode(path)
}

/// The path that a text in the journal stands for.
pub fn decode_path(encoded: &str) -> (r: Option<Vec<u8>>)
    ensures
        match r {
            Some(path) => base64_bytes(encoded@) == Some(path@),
            None => base64_bytes(encoded@) is None,
        },
{
    base64_decode(encoded)
}

/// The bytes of a path that a platform keeps in pairs of bytes, the lower first.
pub open spec fn wide_bytes(units: Seq<u16>) -> Seq<u8>
    decreases units.len(),
{
    if units.len() == 0 {
        seq![]
    } else {
        wide_bytes(units.drop_last()).push((units.last() % 256) as u8).push(
            (units.last() / 256) as u8,
        )
    }
}

/// The pairs that bytes make up; none where one is left over.
pub open spec fn wide_units(bytes: Seq<u8>) -> Option<Seq<u16>> {
    if bytes.len() % 2 != 0 {
        None
    } else {
        Some(
            Seq::new(
                bytes.len() / 2,
                |i: int| (bytes[2 * i] as int + 256 * bytes[2 * i + 1] as int) as u16,
            ),
        )
    }
}

proof fn lemma_wide_len(units: Seq<u16>)
    ensures
        wide_bytes(units).len() == 2 * units.len(),
    decreases units.len(),
{
    if units.len() > 0 {
        lemma_wide_len(units.drop_last());
    }
}

/// Pairs that are taken apart and put together again are the same.
pub proof fn wide_paths_round_trip(units: Seq<u16>)
    ensures
        wide_units(wide_bytes(units)) == Some(units),
    decreases units.len(),
{
    lemma_wide_len(units);
    let bytes = wide_bytes(units);
    if units.len() > 0 {
        let rest = units.drop_last();
        wide_paths_round_trip(rest);
        lemma_wide_len(rest);
        let before = wide_bytes(rest);
        assert forall|i: int| 0 <= i < units.len() implies (wide_units(bytes)->0)[i] == units[i] by {
            if i < rest.len() {
                assert(bytes[2 * i] == before[2 * i]);
                assert(bytes[2 * i + 1] == before[2 * i + 1]);
                assert((wide_units(before)->0)[i] == rest[i]);
            }
        }
    }
    assert(wide_units(bytes)->0 =~= units);
}

/// The bytes of a path kept in pairs of bytes.
pub fn bytes_of_wide(units: &Vec<u16>) -> (r: Vec<u8>)
    ensures
        r@ == wide_bytes(units@),
{
    let mut bytes: Vec<u8> = Vec::new();
    let mut i: usize = 0;
    assert(units@.take(0) =~= seq![]);
    while i < units.len()
        invariant
            i <= units@.len(),
            bytes@ == wide_bytes(units@.take(i as int)),
        decreases units@.len() - i,
    {
        assert(units@.take(i + 1).drop_last() =~= units@.take(i as int));
        bytes.push((units[i] % 256) as u8);
        bytes.push((units[i] / 256) as u8);
        i = i + 1;
    }
    assert(units@.take(i as int) =~= units@);
    bytes
}

/// The text that stands for a path kept in pairs of bytes.
pub fn encode_wide_path(units: &Vec<u16>) -> (r: String)
    requires
        units@.len() <= isize::MAX / 4,
    ensures
        r@ == base64_text(wide_bytes(units@)),
        base64_bytes(r@) == Some(wide_bytes(units@)),
{
    proof {
        lemma_wide_len(units@);
    }
    let bytes: Vec<u8> = bytes_of_wide(units);
    base64_encode(&bytes)
}

/// The path kept in pairs of bytes that bytes write; none where one is left over.
pub fn wide_of_bytes(bytes: &Vec<u8>) -> (r: Option<Vec<u16>>)
    ensures
        match r {
            Some(units) => wide_units(bytes@) == Some(units@),
            None => wide_units(bytes@) is None,
        },
{
    if bytes.len() % 2 != 0 {
        return None;
    }
    let mut units: Vec<u16> = Vec::new();
    let mut i: usize = 0;
    let len: usize = bytes.len();
    let count: usize = len / 2;
    while i < count
        invariant
            i <= count,
            bytes@.len() == len == 2 * count,
            units@.len() == i,
            forall|k: int|
                0 <= k < i ==> (#[trigger] units@[k]) == (bytes@[2 * k] as int + 256
                    * bytes@[2 * k + 1] as int) as u16,
        decreases count - i,
    {
        let low: u16 = bytes[2 * i] as u16;
        let high: u16 = bytes[2 * i + 1] as u16;
        units.push(low + 256 * high);
        i = i + 1;
    }
    assert(units@ =~= wide_units(bytes@)->0);
    Some(units)
}

/// The path kept in pairs of bytes that a text stands for.
pub fn decode_wide_path(encoded: &str) -> (r: Option<Vec<u16>>)
    ensures
        match r {
            Some(units) => base64_bytes(encoded@) is Some && wide_units(
                base64_bytes(encoded@)->0,
            ) == Some(units@),
            None => base64_bytes(encoded@) is None || wide_units(base64_bytes(encoded@)->0) is None,
        },
{
    match base64_decode(encoded) {
        Some(bytes) => wide_of_bytes(&bytes),
        None => None,
    }
}

// The journal ----------------------------------------------------------------

/// A line of the journal.
#[derive(Debug)]
pub enum JournalRecord {
    /// A file is about to be written, at the path that the text stands for.
    UploadPending { id: String, path: String },
    /// The file is complete, or was removed.
    UploadDone { id: String },
}

/// The uploads that were begun and not ended, each with where it was written.
pub open spec fn pending_uploads(records: Seq<JournalRecord>) -> Map<Seq<char>, Seq<u8>>
    decreases records.len(),
{
    if records.len() == 0 {
        Map::empty()
    } else {
        let before = pending_uploads(records.drop_last());
        match records.last() {
            JournalRecord::UploadPending { id, path } => match base64_bytes(path@) {
                Some(bytes) => before.insert(id@, bytes),
                None => before,
            },
            JournalRecord::UploadDone { id } => before.remove(id@),
        }
    }
}

/// The uploads that are still to be cleaned up.
#[derive(Debug)]
pub struct UploadJournal {
    pub pending: Vec<(String, Vec<u8>)>,
}

/// The first place at or after `from` of an upload; the end where there is none.
pub open spec fn upload_place(pending: Seq<(String, Vec<u8>)>, id: Seq<char>, from: int) -> int
    decreases pending.len() - from,
{
    if from < 0 || from >= pending.len() {
        pending.len() as int
    } else if pending[from].0@ == id {
        from
    } else {
        upload_place(pending, id, from + 1)
    }
}

impl View for UploadJournal {
    type V = Map<Seq<char>, Seq<u8>>;

    open spec fn view(&self) -> Map<Seq<char>, Seq<u8>> {
        Map::new(
            |id: Seq<char>| upload_place(self.pending@, id, 0) < self.pending@.len(),
            |id: Seq<char>| self.pending@[upload_place(self.pending@, id, 0)].1@,
        )
    }
}

/// No upload occurs twice.
pub open spec fn distinct_uploads(pending: Seq<(String, Vec<u8>)>) -> bool {
    forall|i: int, j: int|
        0 <= i < j < pending.len() ==> (#[trigger] pending[i]).0@ != (#[trigger] pending[j]).0@
}

proof fn lemma_upload_place(pending: Seq<(String, Vec<u8>)>, id: Seq<char>, from: int)
    requires
        0 <= from,
    ensures
        ({
            let i = upload_place(pending, id, from);
            &&& i <= pending.len()
            &&& i < pending.len() ==> from <= i && pending[i].0@ == id
            &&& forall|k: int| from <= k < i && k < pending.len() ==> (#[trigger] pending[k]).0@ != id
        }),
    decreases pending.len() - from,
{
    if from < pending.len() && pending[from].0@ != id {
        lemma_upload_place(pending, id, from + 1);
    }
}

proof fn lemma_upload_at(pending: Seq<(String, Vec<u8>)>, i: int)
    requires
        0 <= i < pending.len(),
        distinct_uploads(pending),
    ensures
        upload_place(pending, pending[i].0@, 0) == i,
{
    let id = pending[i].0@;
    lemma_upload_place(pending, id, 0);
    let j = upload_place(pending, id, 0);
    if j < i {
        assert(pending[j].0@ != pending[i].0@);
    } else if j > i {
        assert(pending[i].0@ != id);
    }
}

impl UploadJournal {
    /// No upload is to be cleaned up.
    pub fn new() -> (r: Self)
        ensures
            r@ == Map::<Seq<char>, Seq<u8>>::empty(),
            distinct_uploads(r.pending@),
    {
        let r = UploadJournal { pending: Vec::new() };
        assert(r@ =~= Map::<Seq<char>, Seq<u8>>::empty());
        r
    }

    /// The upload has ended.
    fn forget(&mut self, id: &str)
        requires
            distinct_uploads(old(self).pending@),
        ensures
            distinct_uploads(final(self).pending@),
            final(self)@ == old(self)@.remove(id@),
    {
        let ghost before = self.pending@;
        let mut i: usize = 0;
        while i < self.pending.len() && !text_eq(self.pending[i].0.as_str(), id)
            invariant
                i <= self.pending@.len(),
                self.pending@ == before,
                upload_place(before, id@, 0) == upload_place(before, id@, i as int),
            decreases self.pending@.len() - i,
        {
            i = i + 1;
        }
        proof {
            lemma_upload_place(before, id@, 0);
        }
        if i < self.pending.len() {
            self.pending.remove(i);
            proof {
                let after = self.pending@;
                assert(after =~= before.remove(i as int));
                assert forall|a: int, b: int| 0 <= a < b < after.len() implies (
                #[trigger] after[a]).0@ != (#[trigger] after[b]).0@ by {
                    let x = if a < i {
                        a
                    } else {
                        a + 1
                    };
                    let y = if b < i {
                        b
                    } else {
                        b + 1
                    };
                    assert(before[x].0@ != before[y].0@);
                }
                assert forall|q: Seq<char>| #![auto]
                    q != id@ implies (upload_place(after, q, 0) < after.len()) == (upload_place(
                    before,
                    q,
                    0,
                ) < before.len()) && (upload_place(before, q, 0) < before.len()
                    ==> after[upload_place(after, q, 0)].1@ == before[upload_place(before, q, 0)].1@) by {
                    lemma_upload_place(after, q, 0);
                    lemma_upload_place(before, q, 0);
                    let k = upload_place(before, q, 0);
                    let m = upload_place(after, q, 0);
                    if k < before.len() {
                        let place = if k < i {
                            k
                        } else {
                            k - 1
                        };
                        assert(after[place] == before[k]);
                        lemma_upload_at(after, place);
                    }
                    if m < after.len() {
                        let place = if m < i {
                            m
                        } else {
                            m + 1
                        };
                        assert(before[place] == after[m]);
                        lemma_upload_at(before, place);
                    }
                }
                assert(upload_place(after, id@, 0) >= after.len()) by {
                    lemma_upload_place(after, id@, 0);
                    let m = upload_place(after, id@, 0);
                    if m < after.len() {
                        let place = if m < i {
                            m
                        } else {
                            m + 1
                        };
                        assert(before[place] == after[m]);
                        lemma_upload_at(before, place);
                    }
                }
                assert(self@ =~= old(self)@.remove(id@));
            }
        } else {
            assert(self@ =~= old(self)@.remove(id@));
        }
    }

    /// An upload was begun.
    fn remember(&mut self, id: String, path: Vec<u8>)
        requires
            distinct_uploads(old(self).pending@),
        ensures
            distinct_uploads(final(self).pending@),
            final(self)@ == old(self)@.insert(id@, path@),
    {
        self.forget(id.as_str());
        let ghost before = self.pending@;
        let ghost new_id = id@;
        let ghost map = self@;
        proof {
            lemma_upload_place(before, new_id, 0);
            assert(!map.contains_key(new_id));
        }
        self.pending.push((id, path));
        proof {
            let after = self.pending@;
            lemma_upload_at(after, before.len() as int);
            assert forall|q: Seq<char>| #![auto]
                q != new_id implies (upload_place(after, q, 0) < after.len()) == (upload_place(
                before,
                q,
                0,
            ) < before.len()) && (upload_place(before, q, 0) < before.len() ==> after[upload_place(
                after,
                q,
                0,
            )].1@ == before[upload_place(before, q, 0)].1@) by {
                lemma_upload_place(after, q, 0);
                lemma_upload_place(before, q, 0);
                let i = upload_place(after, q, 0);
                let j = upload_place(before, q, 0);
                if i < after.len() && i < before.len() {
                    assert(before[i].0@ == q);
                }
                if j < before.len() {
                    assert(after[j] == before[j]);
                    lemma_upload_at(after, j);
                }
            }
            assert(after[before.len() as int].1@ == path@);
            assert(self@ =~= map.insert(new_id, path@));
            assert(map.insert(new_id, path@) =~= old(self)@.insert(new_id, path@));
        }
    }

    /// What a journal leaves to be cleaned up; a path that cannot be read is
    /// left out.
    pub fn replay(records: &Vec<JournalRecord>) -> (r: Self)
        ensures
            r@ == pending_uploads(records@),
            distinct_uploads(r.pending@),
    {
        let mut journal = UploadJournal::new();
        let mut i: usize = 0;
        assert(records@.take(0) =~= seq![]);
        while i < records.len()
            invariant
                i <= records@.len(),
                journal@ == pending_uploads(records@.take(i as int)),
                distinct_uploads(journal.pending@),
            decreases records@.len() - i,
        {
            assert(records@.take(i + 1).drop_last() =~= records@.take(i as int));
            assert(records@.take(i + 1).last() == records@[i as int]);
            match &records[i] {
                JournalRecord::UploadPending { id, path } => match decode_path(path.as_str()) {
                    Some(bytes) => {
                        journal.remember(id.clone(), bytes);
                    },
                    None => {},
                },
                JournalRecord::UploadDone { id } => {
                    journal.forget(id.as_str());
                },
            }
            i = i + 1;
        }
        assert(records@.take(i as int) =~= records@);
        journal
    }

    /// An upload was cleaned up as far as said: it is done with only where its
    /// file is gone and that was recorded.
    pub fn settle(&mut self, id: &str, removed: bool, recorded: bool)
        requires
            distinct_uploads(old(self).pending@),
        ensures
            distinct_uploads(final(self).pending@),
            final(self)@ == (if removed && recorded {
                old(self)@.remove(id@)
            } else {
                old(self)@
            }),
    {
        if removed && recorded {
            self.forget(id);
        }
    }

    /// Whether nothing is left to be cleaned up, so that the journal can be
    /// emptied.
    pub fn is_clean(&self) -> (r: bool)
        ensures
            r == (self.pending@.len() == 0),
            r == (self@.dom() =~= Set::<Seq<char>>::empty()),
    {
        proof {
            if self.pending@.len() > 0 {
                let id = self.pending@[0].0@;
                assert(upload_place(self.pending@, id, 0) == 0);
                assert(self@.dom().contains(id));
            } else {
                assert(self@.dom() =~= Set::<Seq<char>>::empty());
            }
        }
        self.pending.len() == 0
    }
}

/// An upload that was begun and ended leaves nothing behind.
pub proof fn a_completed_upload_leaves_nothing(
    records: Seq<JournalRecord>,
    pending: JournalRecord,
    done: JournalRecord,
    id: Seq<char>,
)
    requires
        pending matches JournalRecord::UploadPending { id: begun, path } && begun@ == id,
        done matches JournalRecord::UploadDone { id: ended } && ended@ == id,
    ensures
        pending_uploads(records.push(pending).push(done)) == pending_uploads(records).remove(id),
{
    let two = records.push(pending).push(done);
    assert(two.drop_last() =~= records.push(pending));
    assert(records.push(pending).drop_last() =~= records);
    assert(records.push(pending).last() == pending);
    assert(two.last() == done);
    assert(pending_uploads(two) == pending_uploads(records.push(pending)).remove(id));
    assert(pending_uploads(two) =~= pending_uploads(records).remove(id));
}

/// An upload that was begun and not ended is cleaned up by a later session.
pub proof fn an_unfinished_upload_is_remembered(
    records: Seq<JournalRecord>,
    pending: JournalRecord,
    id: Seq<char>,
    path: Seq<u8>,
)
    requires
        pending matches JournalRecord::UploadPending { id: begun, path: text } && begun@ == id
            && base64_bytes(text@) == Some(path),
    ensures
        pending_uploads(records.push(pending)).contains_key(id),
        pending_uploads(records.push(pending))[id] == path,
{
    assert(records.push(pending).drop_last() =~= records);
}

/// A file that is being written, and what to record of it.
#[derive(Debug)]
pub struct UploadGuard {
    pub id: String,
    pub path: Vec<u8>,
    pub completed: bool,
}

/// Begins an upload: gives what is to be recorded before anything is written.
pub fn begin_upload(path: &Vec<u8>) -> (r: (UploadGuard, JournalRecord))
    requires
        path@.len() <= isize::MAX / 2,
    ensures
        is_identifier(r.0.id@),
        r.0.path@ == path@,
        !r.0.completed,
        r.1 matches JournalRecord::UploadPending { id, path: text } && id@ == r.0.id@ && text@
            == base64_text(path@) && base64_bytes(text@) == Some(path@),
{
    let id: String = fresh_identifier();
    let text: String = encode_path(path);
    (
        UploadGuard { id: id.clone(), path: clone_bytes(path), completed: false },
        JournalRecord::UploadPending { id, path: text },
    )
}

impl UploadGuard {
    /// What is to be recorded once the file is complete.
    pub fn done_record(&self) -> (r: JournalRecord)
        ensures
            r matches JournalRecord::UploadDone { id } && id@ == self.id@,
    {
        JournalRecord::UploadDone { id: self.id.clone() }
    }

    /// The file is complete, and that was recorded or not.
    pub fn complete(&mut self, recorded: bool)
        ensures
            final(self).completed == (old(self).completed || recorded),
            final(self).id@ == old(self).id@,
            final(self).path@ == old(self).path@,
    {
        if recorded {
            self.completed = true;
        }
    }

    /// Whether the file is to be removed, as it will never be complete.
    pub fn must_remove(&self) -> (r: bool)
        ensures
            r == !self.completed,
    {
        !self.completed
    }
}

// Room -----------------------------------------------------------------------

/// What a file is kept for.
#[derive(Debug, Clone, Copy, PartialEq, Eq, Structural)]
pub enum SpoolKind {
    /// A copy of an input that lies on the network.
    Input,
    /// A result that will be copied to the network.
    Output,
}

/// A file that is kept for a while, and the room that is counted for it.
#[derive(Debug)]
pub struct LocalSpoolFile {
    pub path: FilePath,
    pub kind: SpoolKind,
    pub bytes: usize,
}

/// A file that could not be removed yet.
#[derive(Debug)]
pub struct PendingLocalDelete {
    pub path: FilePath,
    pub kind: SpoolKind,
    pub bytes: usize,
}

/// The room that files take, and the files that are still to be removed.
#[derive(Debug)]
pub struct SpoolLedger {
    pub input_used: usize,
    pub output_used: usize,
    pub pending: Vec<PendingLocalDelete>,
}

/// The room that files of a kind take.
pub open spec fn used(ledger: SpoolLedger, kind: SpoolKind) -> usize {
    match kind {
        SpoolKind::Input => ledger.input_used,
        SpoolKind::Output => ledger.output_used,
    }
}

pub open spec fn minus(a: usize, b: usize) -> usize {
    if a >= b {
        (a - b) as usize
    } else {
        0
    }
}

/// The room that the files still to be removed take, those of a kind.
pub open spec fn pending_room(pending: Seq<PendingLocalDelete>, kind: SpoolKind) -> nat
    decreases pending.len(),
{
    if pending.len() == 0 {
        0
    } else {
        pending_room(pending.drop_last(), kind) + if pending.last().kind == kind {
            pending.last().bytes as nat
        } else {
            0
        }
    }
}

/// The room that files in use take, those of a kind.
pub open spec fn live_room(files: Seq<LocalSpoolFile>, kind: SpoolKind) -> nat
    decreases files.len(),
{
    if files.len() == 0 {
        0
    } else {
        live_room(files.drop_last(), kind) + if files.last().kind == kind {
            files.last().bytes as nat
        } else {
            0
        }
    }
}

/// The ledger counts the room that the files in use and those still to be removed
/// take, and no other.
pub open spec fn is_balanced(ledger: SpoolLedger, files: Seq<LocalSpoolFile>) -> bool {
    forall|kind: SpoolKind| #[trigger]
        used(ledger, kind) == live_room(files, kind) + pending_room(ledger.pending@, kind)
}

/// The room of one kind has become that, and all else is as it was.
pub open spec fn only_used_changes(
    before: SpoolLedger,
    kind: SpoolKind,
    value: usize,
    after: SpoolLedger,
) -> bool {
    &&& used(after, kind) == value
    &&& forall|other: SpoolKind| other != kind ==> #[trigger] used(after, other) == used(
        before,
        other,
    )
    &&& after.pending@ == before.pending@
}

/// The ledger once a file is no longer needed, and was removed or could not be.
pub open spec fn is_dropped(
    before: SpoolLedger,
    file: LocalSpoolFile,
    removed: bool,
    after: SpoolLedger,
) -> bool {
    if removed {
        only_used_changes(before, file.kind, minus(used(before, file.kind), file.bytes), after)
    } else {
        &&& after.input_used == before.input_used
        &&& after.output_used == before.output_used
        &&& after.pending@ == before.pending@.push(
            PendingLocalDelete { path: file.path, kind: file.kind, bytes: file.bytes },
        )
    }
}

/// The ledger once the first of the files that wait to be removed was tried again.
pub open spec fn is_retried(before: SpoolLedger, removed: bool, after: SpoolLedger) -> bool {
    let first = before.pending@[0];
    if removed {
        &&& used(after, first.kind) == minus(used(before, first.kind), first.bytes)
        &&& forall|other: SpoolKind| other != first.kind ==> #[trigger] used(after, other) == used(
            before,
            other,
        )
        &&& after.pending@ == before.pending@.skip(1)
    } else {
        &&& after.input_used == before.input_used
        &&& after.output_used == before.output_used
        &&& after.pending@ == before.pending@.skip(1).push(first)
    }
}

impl SpoolLedger {
    pub fn new() -> (r: Self)
        ensures
            is_balanced(r, seq![]),
            r.input_used == 0,
            r.output_used == 0,
            r.pending@.len() == 0,
    {
        SpoolLedger { input_used: 0, output_used: 0, pending: Vec::new() }
    }

    fn put(&mut self, kind: SpoolKind, value: usize)
        ensures
            only_used_changes(*old(self), kind, value, *final(self)),
    {
        match kind {
            SpoolKind::Input => {
                self.input_used = value;
            },
            SpoolKind::Output => {
                self.output_used = value;
            },
        }
    }

    fn value(&self, kind: SpoolKind) -> (r: usize)
        ensures
            r == used(*self, kind),
    {
        match kind {
            SpoolKind::Input => self.input_used,
            SpoolKind::Output => self.output_used,
        }
    }

    /// Room is given back; never more than is taken.
    pub fn release(&mut self, kind: SpoolKind, bytes: usize)
        ensures
            only_used_changes(
                *old(self),
                kind,
                minus(used(*old(self), kind), bytes),
                *final(self),
            ),
    {
        let now: usize = self.value(kind);
        self.put(kind, now.saturating_sub(bytes));
    }

    /// A file grew.
    pub fn add_accounted_bytes(&mut self, file: &mut LocalSpoolFile, bytes: usize)
        ensures
            final(file).bytes == (if old(file).bytes + bytes > usize::MAX {
                usize::MAX as int
            } else {
                old(file).bytes + bytes
            }),
            final(file).kind == old(file).kind,
            final(file).path == old(file).path,
            only_used_changes(
                *old(self),
                old(file).kind,
                used(*old(self), old(file).kind).wrapping_add(bytes),
                *final(self),
            ),
    {
        file.bytes = file.bytes.saturating_add(bytes);
        let now: usize = self.value(file.kind);
        self.put(file.kind, now.wrapping_add(bytes));
    }

    /// A file has come to a size.
    pub fn set_accounted_bytes(&mut self, file: &mut LocalSpoolFile, bytes: usize)
        ensures
            final(file).bytes == bytes,
            final(file).kind == old(file).kind,
            final(file).path == old(file).path,
            only_used_changes(
                *old(self),
                old(file).kind,
                if bytes > old(file).bytes {
                    used(*old(self), old(file).kind).wrapping_add(
                        (bytes - old(file).bytes) as usize,
                    )
                } else {
                    minus(used(*old(self), old(file).kind), (old(file).bytes - bytes) as usize)
                },
                *final(self),
            ),
    {
        if bytes > file.bytes {
            let now: usize = self.value(file.kind);
            self.put(file.kind, now.wrapping_add(bytes - file.bytes));
        } else {
            self.release(file.kind, file.bytes - bytes);
        }
        file.bytes = bytes;
    }

    /// A file is no longer needed, and was removed or could not be. Its room is
    /// given back only where it is gone; else it waits to be removed.
    pub fn dropped(&mut self, file: LocalSpoolFile, removed: bool)
        ensures
            is_dropped(*old(self), file, removed, *final(self)),
    {
        if removed {
            self.release(file.kind, file.bytes);
        } else {
            self.pending.push(
                PendingLocalDelete { path: file.path, kind: file.kind, bytes: file.bytes },
            );
        }
    }

    /// The first of the files that wait to be removed was tried again: where it
    /// is gone its room is given back, and else it waits on, behind the others.
    pub fn retried(&mut self, removed: bool)
        requires
            old(self).pending@.len() > 0,
        ensures
            is_retried(*old(self), removed, *final(self)),
    {
        let first: PendingLocalDelete = self.pending.remove(0);
        assert(self.pending@ =~= old(self).pending@.skip(1));
        if removed {
            self.release(first.kind, first.bytes);
        } else {
            self.pending.push(first);
        }
    }

    /// Whether no file takes room any more.
    pub fn is_empty(&self) -> (r: bool)
        ensures
            r == (self.input_used == 0 && self.output_used == 0),
    {
        self.input_used == 0 && self.output_used == 0
    }
}

proof fn lemma_live_room_update(files: Seq<LocalSpoolFile>, i: int, file: LocalSpoolFile, kind: SpoolKind)
    requires
        0 <= i < files.len(),
        file.kind == files[i].kind,
    ensures
        live_room(files.update(i, file), kind) + (if files[i].kind == kind {
            files[i].bytes as nat
        } else {
            0
        }) == live_room(files, kind) + (if files[i].kind == kind {
            file.bytes as nat
        } else {
            0
        }),
    decreases files.len(),
{
    let changed = files.update(i, file);
    if i == files.len() - 1 {
        assert(changed.drop_last() =~= files.drop_last());
    } else {
        assert(changed.drop_last() =~= files.drop_last().update(i, file));
        lemma_live_room_update(files.drop_last(), i, file, kind);
    }
}

proof fn lemma_live_room_remove(files: Seq<LocalSpoolFile>, i: int, kind: SpoolKind)
    requires
        0 <= i < files.len(),
    ensures
        live_room(files, kind) == live_room(files.remove(i), kind) + (if files[i].kind == kind {
            files[i].bytes as nat
        } else {
            0
        }),
    decreases files.len(),
{
    let rest = files.remove(i);
    if i == files.len() - 1 {
        assert(rest =~= files.drop_last());
    } else {
        assert(rest.drop_last() =~= files.drop_last().remove(i));
        lemma_live_room_remove(files.drop_last(), i, kind);
    }
}

proof fn lemma_pending_room_first(pending: Seq<PendingLocalDelete>, kind: SpoolKind)
    requires
        pending.len() > 0,
    ensures
        pending_room(pending, kind) == pending_room(pending.skip(1), kind) + (if pending[0].kind
            == kind {
            pending[0].bytes as nat
        } else {
            0
        }),
    decreases pending.len(),
{
    if pending.len() == 1 {
        assert(pending.drop_last() =~= seq![]);
        assert(pending.skip(1) =~= seq![]);
    } else {
        assert(pending.skip(1).drop_last() =~= pending.drop_last().skip(1));
        lemma_pending_room_first(pending.drop_last(), kind);
    }
}

/// A file that grows or shrinks keeps the ledger balanced.
pub proof fn counting_keeps_the_balance(
    before: SpoolLedger,
    files: Seq<LocalSpoolFile>,
    i: int,
    file: LocalSpoolFile,
    after: SpoolLedger,
)
    requires
        is_balanced(before, files),
        0 <= i < files.len(),
        file.kind == files[i].kind,
        0 <= used(before, file.kind) + file.bytes - files[i].bytes <= usize::MAX,
        only_used_changes(
            before,
            file.kind,
            (used(before, file.kind) + file.bytes - files[i].bytes) as usize,
            after,
        ),
    ensures
        is_balanced(after, files.update(i, file)),
{
    assert forall|kind: SpoolKind| #[trigger]
        used(after, kind) == live_room(files.update(i, file), kind) + pending_room(
            after.pending@,
            kind,
        ) by {
        lemma_live_room_update(files, i, file, kind);
        assert(used(before, kind) == live_room(files, kind) + pending_room(before.pending@, kind));
    }
}

/// A file that is no longer needed keeps the ledger balanced: its room is given
/// back where it is gone, and else counts on.
pub proof fn dropping_keeps_the_balance(
    before: SpoolLedger,
    files: Seq<LocalSpoolFile>,
    i: int,
    removed: bool,
    after: SpoolLedger,
)
    requires
        is_balanced(before, files),
        0 <= i < files.len(),
        is_dropped(before, files[i], removed, after),
    ensures
        is_balanced(after, files.remove(i)),
{
    let file = files[i];
    assert forall|kind: SpoolKind| #[trigger]
        used(after, kind) == live_room(files.remove(i), kind) + pending_room(
            after.pending@,
            kind,
        ) by {
        lemma_live_room_remove(files, i, kind);
        assert(used(before, kind) == live_room(files, kind) + pending_room(before.pending@, kind));
        if !removed {
            assert(after.pending@.drop_last() =~= before.pending@);
        }
    }
}

/// Trying again to remove a file keeps the ledger balanced.
pub proof fn retrying_keeps_the_balance(
    before: SpoolLedger,
    files: Seq<LocalSpoolFile>,
    removed: bool,
    after: SpoolLedger,
)
    requires
        is_balanced(before, files),
        before.pending@.len() > 0,
        is_retried(before, removed, after),
    ensures
        is_balanced(after, files),
{
    let first = before.pending@[0];
    assert forall|kind: SpoolKind| #[trigger]
        used(after, kind) == live_room(files, kind) + pending_room(after.pending@, kind) by {
        lemma_pending_room_first(before.pending@, kind);
        assert(used(before, kind) == live_room(files, kind) + pending_room(before.pending@, kind));
        if !removed {
            assert(after.pending@.drop_last() =~= before.pending@.skip(1));
        }
    }
}

// Names ----------------------------------------------------------------------

/// The name of a file that is kept for a while.
pub open spec fn spool_name(kind: Seq<char>, extension: Seq<char>, id: Seq<char>) -> Seq<char> {
    let ext = strip_start(extension, '.');
    if ext.len() == 0 {
        kind + "-"@ + id
    } else {
        kind + "-"@ + id + "."@ + ext
    }
}

/// The name of a file that is kept for a while, with an identifier.
pub fn spool_file_name(kind: &str, extension: &str, id: &str) -> (r: String)
    ensures
        r@ == spool_name(kind@, extension@, id@),
{
    let ext: String = trim_start_matches(extension, '.');
    let mut name: String = kind.to_owned();
    name.append("-");
    name.append(id);
    if !ext.as_str().is_empty() {
        name.append(".");
        name.append(ext.as_str());
    }
    name
}

/// A new file that is kept for a while, in the directory of the session; it
/// takes no room yet.
pub fn new_spool_file(dir: &FilePath, kind: SpoolKind, extension: &str) -> (r: LocalSpoolFile)
    ensures
        r.kind == kind,
        r.bytes == 0,
        exists|id: Seq<char>|
            #[trigger] is_identifier(id) && r.path@ == crate::output::named_in(
                dir@,
                spool_name(kind_name(kind), extension@, id),
            ),
        r.path.is_plain(),
{
    let id: String = fresh_identifier();
    let name: String = match kind {
        SpoolKind::Input => spool_file_name("input", extension, id.as_str()),
        SpoolKind::Output => spool_file_name("output", extension, id.as_str()),
    };
    LocalSpoolFile { path: crate::output::join_name(dir, name.as_str()), kind, bytes: 0 }
}

pub open spec fn kind_name(kind: SpoolKind) -> Seq<char> {
    match kind {
        SpoolKind::Input => "input"@,
        SpoolKind::Output => "output"@,
    }
}

/// How long files of earlier versions are left alone, in seconds.
pub const LEGACY_GRACE_SECS: u64 = 86_400;

/// Whether a file in the directory for temporary files is a leftover of an
/// earlier version: by its name, and where it is old enough.
pub fn is_legacy_spool(name: &str, age_secs: Option<u64>) -> (r: bool)
    ensures
        r == (("oto-input-"@.is_prefix_of(name@) || "oto-output-"@.is_prefix_of(name@))
            && age_secs is Some && age_secs->0 >= LEGACY_GRACE_SECS),
{
    (starts_with(name, "oto-input-") || starts_with(name, "oto-output-")) && match age_secs {
        Some(age) => age >= LEGACY_GRACE_SECS,
        None => false,
    }
}

/// A name of a file that the program itself left in the directory for temporary
/// files.
pub open spec fn is_stale_name(name: Seq<char>) -> bool {
    ||| "oto_preview_"@.is_prefix_of(name) && ".wav"@.is_suffix_of(name)
    ||| "oto_p"@.is_prefix_of(name) && ".txt"@.is_suffix_of(name)
    ||| "oto_wave_"@.is_prefix_of(name) && ".raw"@.is_suffix_of(name)
}

/// Whether a file in the directory for temporary files is to be removed when
/// the program starts or ends.
pub fn is_stale_temp_file(name: &str) -> (r: bool)
    ensures
        r == is_stale_name(name@),
{
    (starts_with(name, "oto_preview_") && ends_with(name, ".wav")) || (starts_with(name, "oto_p")
        && ends_with(name, ".txt")) || (starts_with(name, "oto_wave_") && ends_with(name, ".raw"))
}

// Earlier sessions -----------------------------------------------------------

/// A name for the directories of a run of the program.
pub fn new_session_id() -> (r: String)
    ensures
        is_identifier(r@),
{
    fresh_identifier()
}

/// What becomes of the directory of an earlier session.
#[derive(Debug)]
pub enum Adoption {
    /// It is no session, or one that is still running, or one that cannot be
    /// opened.
    Ignore,
    /// It was cleaned up: the directory is to be removed.
    Remove,
    /// It is to be cleaned up, under that name.
    Adopt(String),
}

/// What becomes of the directory of an earlier session, from what it is: whether
/// it is a directory, whether it was cleaned up, whether its lock could be had,
/// and what it is called.
pub fn adopt_session(is_dir: bool, complete: bool, locked: bool, name: &Option<Vec<u8>>) -> (r:
    Adoption)
    ensures
        match r {
            Adoption::Ignore => !is_dir || (!complete && (!locked || *name is None || !valid_utf8(
                (*name)->0@,
            ))),
            Adoption::Remove => is_dir && complete,
            Adoption::Adopt(id) => is_dir && !complete && locked && *name is Some && valid_utf8(
                (*name)->0@,
            ) && id@ == decode_utf8((*name)->0@),
        },
{
    if !is_dir {
        return Adoption::Ignore;
    }
    if complete {
        return Adoption::Remove;
    }
    if !locked {
        return Adoption::Ignore;
    }
    match name {
        Some(bytes) => match text_from_utf8(bytes) {
            Some(id) => Adoption::Adopt(id),
            None => Adoption::Ignore,
        },
        None => Adoption::Ignore,
    }
}

/// What to do with an earlier session that is being cleaned up.
#[derive(Debug, Clone, Copy, PartialEq, Eq, Structural)]
pub enum RecoveryStep {
    /// Something is left: it is tried again later.
    Keep,
    /// All is gone: that is to be marked.
    Mark,
    /// That could not be marked: the mark is to be removed, and the session is
    /// tried again later.
    Unmark,
    /// That is marked: the lock is to be released and the directory removed.
    Finish,
}

/// What to do once the files and the uploads of an earlier session were tried,
/// and, where all is gone, once that was to be marked.
pub fn recovery_step(files_gone: bool, uploads_gone: bool, marked: Option<bool>) -> (r: RecoveryStep)
    ensures
        r == recovery_of(files_gone, uploads_gone, marked),
{
    if !(files_gone && uploads_gone) {
        RecoveryStep::Keep
    } else {
        match marked {
            None => RecoveryStep::Mark,
            Some(ok) => if ok {
                RecoveryStep::Finish
            } else {
                RecoveryStep::Unmark
            },
        }
    }
}

// What is remembered ---------------------------------------------------------

/// A record is of one upload only: that another one is pending or done changes
/// nothing of an upload. A path that cannot be read is none.
pub proof fn uploads_do_not_mix(
    records: Seq<JournalRecord>,
    record: JournalRecord,
    other: Seq<char>,
)
    requires
        match record {
            JournalRecord::UploadPending { id, .. } => id@ != other,
            JournalRecord::UploadDone { id } => id@ != other,
        },
    ensures
        pending_uploads(records.push(record)).contains_key(other) == pending_uploads(
            records,
        ).contains_key(other),
        pending_uploads(records).contains_key(other) ==> pending_uploads(
            records.push(record),
        )[other] == pending_uploads(records)[other],
        record matches JournalRecord::UploadPending { path, .. } ==> (base64_bytes(path@) is None
            ==> pending_uploads(records.push(record)) == pending_uploads(records)),
        pending_uploads(seq![]) == Map::<Seq<char>, Seq<u8>>::empty(),
{
    assert(records.push(record).drop_last() =~= records);
}

/// The name of a file that is kept for a while starts with what it is kept for and
/// its identifier, and ends with the extension of what it stands for, without the
/// dots in front of it; two identifiers make two names.
pub proof fn kept_files_have_names_of_their_own(
    kind: Seq<char>,
    extension: Seq<char>,
    id: Seq<char>,
    other: Seq<char>,
)
    requires
        extension.len() > 0,
        extension[0] != '.',
    ensures
        spool_name(kind, extension, id) == kind + seq!['-'] + id + seq!['.'] + extension,
        spool_name(kind, seq!['.'] + extension, id) == spool_name(kind, extension, id),
        spool_name(kind, seq![], id) == kind + seq!['-'] + id,
        id != other && id.len() == other.len() ==> spool_name(kind, extension, id) != spool_name(
            kind,
            extension,
            other,
        ),
        kind_name(SpoolKind::Input) == "input"@,
        kind_name(SpoolKind::Output) == "output"@,
{
    reveal_strlit("-");
    reveal_strlit(".");
    let dotted = seq!['.'] + extension;
    assert(dotted.skip(1) =~= extension);
    assert(strip_start(extension, '.') == extension);
    assert(strip_start(dotted, '.') == strip_start(dotted.skip(1), '.'));
    let a = spool_name(kind, extension, id);
    let b = spool_name(kind, extension, other);
    let none: Seq<char> = seq![];
    assert(strip_start(none, '.') == none);
    assert(a =~= kind + seq!['-'] + id + seq!['.'] + extension);
    assert(spool_name(kind, none, id) =~= kind + seq!['-'] + id);
    let from = kind.len() as int + 1;
    if id.len() == other.len() {
        assert(a.subrange(from, from + id.len()) =~= id);
        assert(b.subrange(from, from + id.len()) =~= other);
    }
}

/// Nothing is swept but what this program names: previews, pictures of sound, and
/// texts of how far a conversion has come.
pub proof fn only_own_leftovers_are_swept(name: Seq<char>)
    ensures
        is_stale_name(name) ==> name.len() >= 5 && name.take(4) == seq!['o', 't', 'o', '_'],
        is_stale_name("oto_p"@ + name + ".txt"@),
{
    reveal_strlit("oto_preview_");
    reveal_strlit("oto_p");
    reveal_strlit("oto_wave_");
    reveal_strlit(".wav");
    reveal_strlit(".txt");
    reveal_strlit(".raw");
    if is_stale_name(name) {
        assert(name.take(4) =~= seq!['o', 't', 'o', '_']) by {
            if "oto_preview_"@.is_prefix_of(name) {
                assert("oto_preview_"@.len() == 12 && "oto_preview_"@[0] == 'o'
                    && "oto_preview_"@[1] == 't' && "oto_preview_"@[2] == 'o'
                    && "oto_preview_"@[3] == '_');
            } else if "oto_p"@.is_prefix_of(name) {
                assert("oto_p"@.len() == 5 && "oto_p"@[0] == 'o' && "oto_p"@[1] == 't'
                    && "oto_p"@[2] == 'o' && "oto_p"@[3] == '_');
            } else {
                assert("oto_wave_"@.len() == 9 && "oto_wave_"@[0] == 'o' && "oto_wave_"@[1] == 't'
                    && "oto_wave_"@[2] == 'o' && "oto_wave_"@[3] == '_');
            }
        }
    }
    let text = "oto_p"@ + name + ".txt"@;
    assert(text.take(5) =~= "oto_p"@);
    assert(text.skip(text.len() - 4) =~= ".txt"@);
}

/// What follows an attempt to clean up after a session that has ended.
pub open spec fn recovery_of(files_gone: bool, uploads_gone: bool, marked: Option<bool>) -> RecoveryStep {
    if !(files_gone && uploads_gone) {
        RecoveryStep::Keep
    } else {
        match marked {
            None => RecoveryStep::Mark,
            Some(true) => RecoveryStep::Finish,
            Some(false) => RecoveryStep::Unmark,
        }
    }
}

/// A session that has ended is forgotten only where all that it left is gone and
/// that is marked; while anything is left it is tried again.
pub proof fn nothing_left_behind_is_forgotten(
    files_gone: bool,
    uploads_gone: bool,
    marked: Option<bool>,
)
    ensures
        recovery_of(files_gone, uploads_gone, marked) == RecoveryStep::Finish <==> files_gone
            && uploads_gone && marked == Some(true),
        !files_gone || !uploads_gone ==> recovery_of(files_gone, uploads_gone, marked)
            == RecoveryStep::Keep,
        files_gone && uploads_gone && marked is None ==> recovery_of(
            files_gone,
            uploads_gone,
            marked,
        ) == RecoveryStep::Mark,
{
}

} // verus!
