//! Records of the append-log account storage found in snapshot archives, and
//! the decisions of the archive walk: which entry is what, how a storage file
//! splits into accounts, and what the walk adds up. Reading the archive itself
//! is left to the caller, who hands each entry's path and bytes in here.
use vstd::bytes::{spec_u64_from_le_bytes, u64_from_le_bytes};
use vstd::prelude::*;
use vstd::utf8::{decode_utf8, encode_utf8, valid_utf8};

verus! {

/// Fixed header that precedes every account record.
pub const ACCOUNT_HEADER_SIZE: usize = 136;

/// Smallest manifest that holds slot, parent slot and bank hash.
pub const MANIFEST_MIN_SIZE: usize = 48;

/// One account record of a storage file.
#[derive(Debug, Clone)]
pub struct SnapshotAccount {
    pub write_version: u64,
    pub pubkey: [u8; 32],
    pub lamports: u64,
    pub rent_epoch: u64,
    pub owner: [u8; 32],
    pub executable: bool,
    pub hash: [u8; 32],
    pub data: Vec<u8>,
}

/// Bank metadata taken from the head of a manifest file.
#[derive(Debug, Clone)]
pub struct SnapshotManifest {
    pub slot: u64,
    pub bank_hash: [u8; 32],
    pub parent_slot: u64,
    pub epoch: u64,
    pub block_height: u64,
    /// The whole manifest, for callers that parse further.
    pub raw_data: Vec<u8>,
}

/// A status-cache entry.
#[derive(Debug, Clone)]
pub struct StatusCacheEntry {
    pub slot: u64,
    pub hash: [u8; 32],
    pub data: Vec<u8>,
}

/// What a walk over a snapshot archive yields.
#[derive(Debug)]
pub enum SnapshotItem {
    Version(String),
    Manifest(SnapshotManifest),
    StatusCache(Vec<u8>),
    Account(SnapshotAccount),
    OtherFile { path: String, data: Vec<u8> },
}

/// Totals over a snapshot's items.
#[derive(Debug, Clone)]
pub struct SnapshotStats {
    pub version: String,
    pub slot: u64,
    pub epoch: u64,
    pub total_accounts: u64,
    pub total_lamports: u64,
    pub total_data_bytes: u64,
    pub executable_accounts: u64,
    pub max_account_size: usize,
}

/// The little-endian `u64` at `at`.
pub open spec fn u64_at(data: Seq<u8>, at: int) -> u64 {
    spec_u64_from_le_bytes(data.subrange(at, at + 8))
}

/// The payload length that the record header at `off` declares.
pub open spec fn record_data_len(data: Seq<u8>, off: int) -> int {
    u64_at(data, off + 8) as int
}

/// A whole record, header and payload, starts at `off`.
pub open spec fn record_complete(data: Seq<u8>, off: int) -> bool {
    &&& off + ACCOUNT_HEADER_SIZE <= data.len()
    &&& off + ACCOUNT_HEADER_SIZE + record_data_len(data, off) <= data.len()
}

/// `x` rounded up to a multiple of 8.
pub open spec fn align8(x: int) -> int {
    x + (8 - x % 8) % 8
}

/// Where the record after the one at `off` starts.
pub open spec fn next_record(data: Seq<u8>, off: int) -> int {
    align8(off + ACCOUNT_HEADER_SIZE + record_data_len(data, off))
}

/// Offsets of the whole records from `off` on; the walk stops at the first
/// record that is cut off.
pub open spec fn record_offsets(data: Seq<u8>, off: int) -> Seq<int>
    decreases data.len() + 8 - off via record_offsets_decreases
{
    if off >= 0 && record_complete(data, off) {
        seq![off] + record_offsets(data, next_record(data, off))
    } else {
        Seq::empty()
    }
}

#[via_fn]
proof fn record_offsets_decreases(data: Seq<u8>, off: int) {
    if off >= 0 && record_complete(data, off) {
        let x = off + ACCOUNT_HEADER_SIZE + record_data_len(data, off);
        assert(record_data_len(data, off) >= 0);
        assert(0 <= (8 - x % 8) % 8 < 8);
        assert(next_record(data, off) == align8(x));
        assert(align8(x) >= x);
        assert(0 <= data.len() + 8 - next_record(data, off) < data.len() + 8 - off);
    }
}

/// `acc` holds the fields of the record at `off`.
pub open spec fn account_at(acc: SnapshotAccount, data: Seq<u8>, off: int) -> bool {
    &&& acc.write_version == u64_at(data, off)
    &&& acc.pubkey@ == data.subrange(off + 0x10, off + 0x30)
    &&& acc.lamports == u64_at(data, off + 0x30)
    &&& acc.rent_epoch == u64_at(data, off + 0x38)
    &&& acc.owner@ == data.subrange(off + 0x40, off + 0x60)
    &&& acc.executable == (data[off + 0x60] != 0)
    &&& acc.hash@ == data.subrange(off + 0x68, off + 0x88)
    &&& acc.data@ == data.subrange(
        off + ACCOUNT_HEADER_SIZE,
        off + ACCOUNT_HEADER_SIZE + record_data_len(data, off),
    )
}

fn read_u64_at(data: &[u8], at: usize) -> (r: u64)
    requires
        at + 8 <= data@.len(),
    ensures
        r == u64_at(data@, at as int),
{
    let n = data.len();
    u64_from_le_bytes(&data[at..at + 8])
}

fn read_key(data: &[u8], at: usize) -> (r: [u8; 32])
    requires
        at + 32 <= data@.len(),
    ensures
        r@ == data@.subrange(at as int, at + 32),
{
    let n = data.len();
    let mut key = [0u8; 32];
    let mut i: usize = 0;
    while i < 32
        invariant
            i <= 32,
            n == data@.len(),
            at + 32 <= data@.len(),
            forall|k: int| 0 <= k < i ==> key@[k] == data@[at + k],
        decreases 32 - i,
    {
        key[i] = data[at + i];
        i = i + 1;
    }
    assert(key@ =~= data@.subrange(at as int, at + 32));
    key
}

/// Reads the record at `off`, or `None` when it is cut off.
fn read_record(data: &[u8], off: usize) -> (r: Option<(SnapshotAccount, usize)>)
    ensures
        record_complete(data@, off as int) ==> {
            &&& r is Some
            &&& account_at(r->Some_0.0, data@, off as int)
            &&& next_record(data@, off as int) <= usize::MAX ==> r->Some_0.1 == next_record(data@, off as int)
            &&& next_record(data@, off as int) > usize::MAX ==> r->Some_0.1 == usize::MAX
        },
        !record_complete(data@, off as int) ==> r is None,
{
    let len = data.len();
    if off > len || len - off < ACCOUNT_HEADER_SIZE {
        return None;
    }
    let data_len = read_u64_at(data, off + 0x08);
    let start = off + ACCOUNT_HEADER_SIZE;
    if data_len > (len - start) as u64 {
        return None;
    }
    let n = data_len as usize;
    let end = start + n;
    let pad = (8 - end % 8) % 8;
    let next = if end > usize::MAX - pad {
        usize::MAX
    } else {
        end + pad
    };
    let mut payload: Vec<u8> = Vec::new();
    payload.extend_from_slice(&data[start..end]);
    assert(payload@ =~= data@.subrange(start as int, end as int));
    let account = SnapshotAccount {
        write_version: read_u64_at(data, off),
        pubkey: read_key(data, off + 0x10),
        lamports: read_u64_at(data, off + 0x30),
        rent_epoch: read_u64_at(data, off + 0x38),
        owner: read_key(data, off + 0x40),
        executable: data[off + 0x60] != 0,
        hash: read_key(data, off + 0x68),
        data: payload,
    };
    assert(account_at(account, data@, off as int));
    assert(end as int + pad as int == next_record(data@, off as int));
    Some((account, next))
}

/// Splits a storage file into its whole account records, in file order; a
/// record cut off by the end of the file ends the walk.
pub fn parse_appendvec(data: &[u8]) -> (r: Vec<SnapshotAccount>)
    ensures
        r@.len() == record_offsets(data@, 0).len(),
        forall|i: int|
            0 <= i < r@.len() ==> account_at(#[trigger] r@[i], data@, record_offsets(data@, 0)[i]),
{
    let mut accounts: Vec<SnapshotAccount> = Vec::new();
    let mut off: usize = 0;
    let ghost seen: Seq<int> = Seq::empty();
    let dl = data.len();
    loop
        invariant
            dl == data@.len(),
            record_offsets(data@, 0) == seen + record_offsets(data@, off as int),
            accounts@.len() == seen.len(),
            forall|i: int|
                0 <= i < accounts@.len() ==> account_at(#[trigger] accounts@[i], data@, seen[i]),
        ensures
            seen == record_offsets(data@, 0),
            accounts@.len() == seen.len(),
            forall|i: int|
                0 <= i < accounts@.len() ==> account_at(#[trigger] accounts@[i], data@, seen[i]),
        decreases usize::MAX - off,
    {
        match read_record(data, off) {
            Some((account, next)) => {
                proof {
                    let nr = next_record(data@, off as int);
                    assert(record_offsets(data@, off as int) == seq![off as int] + record_offsets(data@, nr));
                    if nr > usize::MAX {
                        assert(record_offsets(data@, nr) == Seq::<int>::empty());
                        assert(record_offsets(data@, next as int) == Seq::<int>::empty());
                    }
                    assert(seen + seq![off as int] + record_offsets(data@, next as int) =~= seen + record_offsets(data@, off as int));
                    seen = seen.push(off as int);
                }
                accounts.push(account);
                off = next;
            },
            None => {
                assert(record_offsets(data@, off as int) == Seq::<int>::empty());
                assert(seen =~= record_offsets(data@, 0));
                break;
            },
        }
    }
    accounts
}

/// Cursor over the storage file being walked: hands out its records one at a
/// time and asks for the next file when the current one has no whole record
/// left.
pub struct AppendVecCursor {
    buf: Vec<u8>,
    offset: usize,
}

impl AppendVecCursor {
    pub closed spec fn buffer(&self) -> Seq<u8> {
        self.buf@
    }

    pub closed spec fn offset(&self) -> int {
        self.offset as int
    }

    pub fn new() -> (c: Self)
        ensures
            c.buffer() == Seq::<u8>::empty(),
            c.offset() == 0,
    {
        AppendVecCursor { buf: Vec::new(), offset: 0 }
    }

    /// Starts on a new storage file.
    pub fn load(&mut self, content: Vec<u8>)
        ensures
            final(self).buffer() == content@,
            final(self).offset() == 0,
    {
        self.buf = content;
        self.offset = 0;
    }

    /// The next record, or `None` when the file has no whole record left, in
    /// which case the file is dropped.
    pub fn next_account(&mut self) -> (r: Option<SnapshotAccount>)
        ensures
            record_complete(old(self).buffer(), old(self).offset()) ==> {
                let nr = next_record(old(self).buffer(), old(self).offset());
                &&& r is Some
                &&& account_at(r->Some_0, old(self).buffer(), old(self).offset())
                &&& final(self).buffer() == old(self).buffer()
                &&& nr <= usize::MAX ==> final(self).offset() == nr
                &&& nr > usize::MAX ==> final(self).offset() == usize::MAX
            },
            !record_complete(old(self).buffer(), old(self).offset()) ==> {
                &&& r is None
                &&& final(self).buffer() == Seq::<u8>::empty()
                &&& final(self).offset() == 0
            },
    {
        match read_record(self.buf.as_slice(), self.offset) {
            Some((account, next)) => {
                self.offset = next;
                Some(account)
            },
            None => {
                self.buf.clear();
                self.offset = 0;
                None
            },
        }
    }
}

/// Every account of a snapshot: the records of each storage file, file
/// after file.
pub fn parse_snapshot(storages: &Vec<Vec<u8>>) -> (r: Vec<SnapshotAccount>)
    ensures
        r@.len() == snapshot_records(file_views(storages@), storages@.len() as int).len(),
        forall|i: int|
            0 <= i < r@.len() ==> {
                let (f, off) = snapshot_records(file_views(storages@), storages@.len() as int)[i];
                account_at(#[trigger] r@[i], storages@[f]@, off)
            },
{
    let ghost files = file_views(storages@);
    let mut all: Vec<SnapshotAccount> = Vec::new();
    let mut k: usize = 0;
    while k < storages.len()
        invariant
            k <= storages@.len(),
            files == file_views(storages@),
            all@.len() == snapshot_records(files, k as int).len(),
            forall|i: int|
                0 <= i < all@.len() ==> {
                    let (f, off) = snapshot_records(files, k as int)[i];
                    account_at(#[trigger] all@[i], storages@[f]@, off)
                },
        decreases storages@.len() - k,
    {
        let mut accounts = parse_appendvec(storages[k].as_slice());
        let ghost before = all@;
        all.append(&mut accounts);
        proof {
            let recs = snapshot_records(files, k + 1);
            assert(files[k as int] == storages@[k as int]@);
            assert forall|i: int| 0 <= i < all@.len() implies {
                let (f, off) = recs[i];
                account_at(#[trigger] all@[i], storages@[f]@, off)
            } by {
                if i >= before.len() {
                    let j = i - before.len();
                    assert(recs[i] == (k as int, record_offsets(files[k as int], 0)[j]));
                } else {
                    assert(recs[i] == snapshot_records(files, k as int)[i]);
                }
            }
        }
        k = k + 1;
    }
    all
}

/// The bytes of each file.
pub open spec fn file_views(files: Seq<Vec<u8>>) -> Seq<Seq<u8>> {
    files.map_values(|f: Vec<u8>| f@)
}

/// The (file, offset) of every record in the first `k` files.
pub open spec fn snapshot_records(files: Seq<Seq<u8>>, k: int) -> Seq<(int, int)>
    decreases k,
{
    if k <= 0 {
        Seq::empty()
    } else {
        snapshot_records(files, k - 1) + record_offsets(files[k - 1], 0).map_values(
            |o: int| (k - 1, o),
        )
    }
}

/// Reads slot, parent slot and bank hash from the head of a manifest.
pub fn parse_manifest(data: &[u8]) -> (r: Result<SnapshotManifest, &'static str>)
    ensures
        data@.len() < MANIFEST_MIN_SIZE ==> r is Err,
        data@.len() >= MANIFEST_MIN_SIZE ==> {
            &&& r is Ok
            &&& r->Ok_0.slot == u64_at(data@, 0)
            &&& r->Ok_0.parent_slot == u64_at(data@, 8)
            &&& r->Ok_0.bank_hash@ == data@.subrange(16, 48)
            &&& r->Ok_0.epoch == 0
            &&& r->Ok_0.block_height == 0
            &&& r->Ok_0.raw_data@ == data@
        },
{
    if data.len() < MANIFEST_MIN_SIZE {
        return Err("Manifest too small");
    }
    let mut raw_data: Vec<u8> = Vec::new();
    raw_data.extend_from_slice(data);
    assert(raw_data@ =~= data@);
    Ok(SnapshotManifest {
        slot: read_u64_at(data, 0),
        bank_hash: read_key(data, 16),
        parent_slot: read_u64_at(data, 8),
        epoch: 0,
        block_height: 0,
        raw_data,
    })
}

/// Bytes of the entry name `version`.
pub open spec fn version_name() -> Seq<u8> {
    seq![118u8, 101, 114, 115, 105, 111, 110]
}

/// Bytes of the entry name `status_cache`.
pub open spec fn status_cache_name() -> Seq<u8> {
    seq![115u8, 116, 97, 116, 117, 115, 95, 99, 97, 99, 104, 101]
}

/// Bytes of the directory prefix `snapshots/`.
pub open spec fn snapshots_dir() -> Seq<u8> {
    seq![115u8, 110, 97, 112, 115, 104, 111, 116, 115, 47]
}

/// Bytes of the directory prefix `accounts/`.
pub open spec fn accounts_dir() -> Seq<u8> {
    seq![97u8, 99, 99, 111, 117, 110, 116, 115, 47]
}

pub open spec fn has_prefix(p: Seq<u8>, q: Seq<u8>) -> bool {
    q.len() <= p.len() && p.subrange(0, q.len() as int) == q
}

pub open spec fn ends_with_slash(p: Seq<u8>) -> bool {
    p.len() > 0 && p.last() == 47
}

/// `snapshots/<slot>/<slot>`: exactly one more `/`, with the same name on both
/// sides of it.
pub open spec fn is_manifest_path(p: Seq<u8>) -> bool {
    &&& has_prefix(p, snapshots_dir())
    &&& exists|j: int|
        #![trigger p[j]]
        {
            &&& 10 <= j < p.len()
            &&& p[j] == 47
            &&& forall|k: int| 10 <= k < p.len() && k != j ==> p[k] != 47
            &&& p.subrange(10, j) == p.subrange(j + 1, p.len() as int)
        }
}

fn starts_with(p: &[u8], q: &[u8]) -> (r: bool)
    ensures
        r == has_prefix(p@, q@),
{
    if q.len() > p.len() {
        return false;
    }
    let mut i: usize = 0;
    while i < q.len()
        invariant
            i <= q@.len() <= p@.len(),
            p@.subrange(0, i as int) == q@.subrange(0, i as int),
        decreases q@.len() - i,
    {
        if p[i] != q[i] {
            assert(p@.subrange(0, q@.len() as int)[i as int] != q@[i as int]);
            return false;
        }
        i = i + 1;
        assert(p@.subrange(0, i as int) =~= q@.subrange(0, i as int));
    }
    assert(q@.subrange(0, q@.len() as int) =~= q@);
    true
}

fn same_bytes(a: &[u8], b: &[u8]) -> (r: bool)
    ensures
        r == (a@ == b@),
{
    if a.len() != b.len() {
        return false;
    }
    let r = starts_with(a, b);
    proof {
        assert(a@ =~= a@.subrange(0, b@.len() as int));
    }
    r
}

fn manifest_path(p: &[u8]) -> (r: bool)
    ensures
        r == is_manifest_path(p@),
{
    let dir: Vec<u8> = vec![115u8, 110, 97, 112, 115, 104, 111, 116, 115, 47];
    assert(dir@ =~= snapshots_dir());
    if !starts_with(p, dir.as_slice()) {
        return false;
    }
    let n = p.len();
    let mut first: usize = n;
    let mut i: usize = 10;
    while i < n
        invariant
            10 <= i <= n == p@.len(),
            first <= n,
            first == n ==> forall|k: int| 10 <= k < i ==> p@[k] != 47,
            first < n ==> {
                &&& 10 <= first < i
                &&& p@[first as int] == 47
                &&& forall|k: int| 10 <= k < i && k != first ==> p@[k] != 47
            },
        decreases n - i,
    {
        if p[i] == 47u8 {
            if first < n {
                proof {
                    assert forall|j: int|
                        10 <= j < p@.len() && p@[j] == 47 implies exists|k: int|
                        10 <= k < p@.len() && k != j && p@[k] == 47 by {
                        if j == first {
                            assert(i as int != j && p@[i as int] == 47);
                        } else {
                            assert(first as int != j && p@[first as int] == 47);
                        }
                    }
                }
                return false;
            }
            assert(forall|k: int| 10 <= k < i ==> p@[k] != 47);
            first = i;
            assert(p@[first as int] == 47);
        }
        i = i + 1;
    }
    if first == n {
        return false;
    }
    let a = &p[10..first];
    let b = &p[first + 1..n];
    let r = same_bytes(a, b);
    proof {
        if r {
            assert(p@[first as int] == 47);
        }
    }
    r
}

/// Characters with the Unicode `White_Space` property.
pub open spec fn is_white_space(c: char) -> bool {
    let u = c as u32;
    ||| 0x09 <= u <= 0x0d
    ||| u == 0x20
    ||| u == 0x85
    ||| u == 0xa0
    ||| u == 0x1680
    ||| 0x2000 <= u <= 0x200a
    ||| u == 0x2028
    ||| u == 0x2029
    ||| u == 0x202f
    ||| u == 0x205f
    ||| u == 0x3000
}

/// `s` without its leading white space.
pub open spec fn trim_start(s: Seq<char>) -> Seq<char>
    decreases s.len(),
{
    if s.len() > 0 && is_white_space(s[0]) {
        trim_start(s.drop_first())
    } else {
        s
    }
}

/// `s` without its trailing white space.
pub open spec fn trim_end(s: Seq<char>) -> Seq<char>
    decreases s.len(),
{
    if s.len() > 0 && is_white_space(s.last()) {
        trim_end(s.drop_last())
    } else {
        s
    }
}

/// `s` without leading or trailing white space.
pub open spec fn trimmed(s: Seq<char>) -> Seq<char> {
    trim_end(trim_start(s))
}

/// The text that lossy UTF-8 decoding makes of `b`: every invalid sequence
/// becomes U+FFFD.
pub uninterp spec fn lossy_utf8(b: Seq<u8>) -> Seq<char>;

/// Relies on `String::from_utf8_lossy`: the result depends on the bytes alone,
/// and valid UTF-8 is decoded unchanged.
#[verifier::external_body]
fn from_utf8_lossy(b: &[u8]) -> (r: String)
    ensures
        r@ == lossy_utf8(b@),
        valid_utf8(b@) ==> r@ == decode_utf8(b@),
{
    String::from_utf8_lossy(b).into_owned()
}

/// Relies on `str::trim`: the slice without leading and trailing characters
/// of the Unicode `White_Space` property.
#[verifier::external_body]
fn trim(s: &str) -> (r: &str)
    ensures
        r@ == trimmed(s@),
{
    s.trim()
}

/// The version named by a version file: its text, lossily decoded, without
/// surrounding white space.
pub fn version_text(content: &[u8]) -> (r: String)
    ensures
        r@ == trimmed(lossy_utf8(content@)),
        valid_utf8(content@) ==> r@ == trimmed(decode_utf8(content@)),
{
    let text = from_utf8_lossy(content);
    trim(text.as_str()).to_owned()
}

/// Where an archive entry goes.
#[derive(Debug)]
pub enum EntryAction {
    /// An item to yield as it is.
    Emit(SnapshotItem),
    /// A storage file whose records are walked next.
    LoadStorage(Vec<u8>),
    /// Nothing to yield: a directory, or an empty file under `snapshots/`.
    Skip,
}

/// Decides what an archive entry is from its path, and for a manifest,
/// whether it parses.
pub fn route_entry(path: String, content: Vec<u8>) -> (r: EntryAction)
    ensures
        ({
            let p = path@;
            let b = encode_utf8(path@);
            if b == version_name() {
                r matches EntryAction::Emit(SnapshotItem::Version(v)) && v@ == trimmed(
                    lossy_utf8(content@),
                )
            } else if b == status_cache_name() {
                r matches EntryAction::Emit(SnapshotItem::StatusCache(c)) && c@ == content@
            } else if has_prefix(b, snapshots_dir()) && !ends_with_slash(b) {
                if is_manifest_path(b) && content@.len() >= MANIFEST_MIN_SIZE {
                    r matches EntryAction::Emit(SnapshotItem::Manifest(m)) && m.raw_data@ == content@
                        && m.slot == u64_at(content@, 0) && m.parent_slot == u64_at(content@, 8)
                        && m.bank_hash@ == content@.subrange(16, 48) && m.epoch == 0
                        && m.block_height == 0
                } else if content@.len() > 0 {
                    r matches EntryAction::Emit(SnapshotItem::OtherFile { path: q, data: c })
                        && q@ == p && c@ == content@
                } else {
                    r is Skip
                }
            } else if has_prefix(b, accounts_dir()) {
                r matches EntryAction::LoadStorage(c) && c@ == content@
            } else if !ends_with_slash(b) {
                r matches EntryAction::Emit(SnapshotItem::OtherFile { path: q, data: c }) && q@ == p
                    && c@ == content@
            } else {
                r is Skip
            }
        }),
{
    let b = path.as_str().as_bytes();
    let version: Vec<u8> = vec![118u8, 101, 114, 115, 105, 111, 110];
    let status: Vec<u8> = vec![115u8, 116, 97, 116, 117, 115, 95, 99, 97, 99, 104, 101];
    let snapshots: Vec<u8> = vec![115u8, 110, 97, 112, 115, 104, 111, 116, 115, 47];
    let accounts: Vec<u8> = vec![97u8, 99, 99, 111, 117, 110, 116, 115, 47];
    assert(version@ =~= version_name());
    assert(status@ =~= status_cache_name());
    assert(snapshots@ =~= snapshots_dir());
    assert(accounts@ =~= accounts_dir());
    let dir_marker = b.len() > 0 && b[b.len() - 1] == 47u8;
    if same_bytes(b, version.as_slice()) {
        EntryAction::Emit(SnapshotItem::Version(version_text(content.as_slice())))
    } else if same_bytes(b, status.as_slice()) {
        EntryAction::Emit(SnapshotItem::StatusCache(content))
    } else if starts_with(b, snapshots.as_slice()) && !dir_marker {
        if manifest_path(b) && content.len() >= MANIFEST_MIN_SIZE {
            match parse_manifest(content.as_slice()) {
                Ok(m) => EntryAction::Emit(SnapshotItem::Manifest(m)),
                Err(_) => EntryAction::Emit(SnapshotItem::OtherFile { path, data: content }),
            }
        } else if content.len() > 0 {
            EntryAction::Emit(SnapshotItem::OtherFile { path, data: content })
        } else {
            EntryAction::Skip
        }
    } else if starts_with(b, accounts.as_slice()) {
        EntryAction::LoadStorage(content)
    } else if !dir_marker {
        EntryAction::Emit(SnapshotItem::OtherFile { path, data: content })
    } else {
        EntryAction::Skip
    }
}

pub open spec fn sat_add(a: u64, b: u64) -> u64 {
    if a + b > u64::MAX {
        u64::MAX
    } else {
        (a + b) as u64
    }
}

fn saturating_add(a: u64, b: u64) -> (r: u64)
    ensures
        r == sat_add(a, b),
{
    if a > u64::MAX - b {
        u64::MAX
    } else {
        a + b
    }
}

/// What the totals hold, with the version as its characters.
pub struct StatsView {
    pub version: Seq<char>,
    pub slot: u64,
    pub epoch: u64,
    pub total_accounts: u64,
    pub total_lamports: u64,
    pub total_data_bytes: u64,
    pub executable_accounts: u64,
    pub max_account_size: nat,
}

/// The totals before any item.
pub open spec fn empty_stats() -> StatsView {
    StatsView {
        version: Seq::empty(),
        slot: 0,
        epoch: 0,
        total_accounts: 0,
        total_lamports: 0,
        total_data_bytes: 0,
        executable_accounts: 0,
        max_account_size: 0,
    }
}

/// The totals after one more item; counters stop at `u64::MAX`.
pub open spec fn stats_step(s: StatsView, item: SnapshotItem) -> StatsView {
    match item {
        SnapshotItem::Version(v) => StatsView { version: v@, ..s },
        SnapshotItem::Manifest(m) => StatsView { slot: m.slot, epoch: m.epoch, ..s },
        SnapshotItem::Account(a) => StatsView {
            total_accounts: sat_add(s.total_accounts, 1),
            total_lamports: sat_add(s.total_lamports, a.lamports),
            total_data_bytes: sat_add(s.total_data_bytes, a.data@.len() as u64),
            executable_accounts: if a.executable {
                sat_add(s.executable_accounts, 1)
            } else {
                s.executable_accounts
            },
            max_account_size: if a.data@.len() > s.max_account_size {
                a.data@.len()
            } else {
                s.max_account_size
            },
            ..s
        },
        _ => s,
    }
}

/// The totals over `items`, in order.
pub open spec fn stats_of(items: Seq<SnapshotItem>) -> StatsView
    decreases items.len(),
{
    if items.len() == 0 {
        empty_stats()
    } else {
        stats_step(stats_of(items.drop_last()), items.last())
    }
}

impl View for SnapshotStats {
    type V = StatsView;

    open spec fn view(&self) -> StatsView {
        StatsView {
            version: self.version@,
            slot: self.slot,
            epoch: self.epoch,
            total_accounts: self.total_accounts,
            total_lamports: self.total_lamports,
            total_data_bytes: self.total_data_bytes,
            executable_accounts: self.executable_accounts,
            max_account_size: self.max_account_size as nat,
        }
    }
}

impl SnapshotStats {
    /// Adds one item to the totals.
    pub fn record(&mut self, item: &SnapshotItem)
        ensures
            final(self)@ == stats_step(old(self)@, *item),
    {
        match item {
            SnapshotItem::Version(v) => {
                self.version = v.clone();
            },
            SnapshotItem::Manifest(m) => {
                self.slot = m.slot;
                self.epoch = m.epoch;
            },
            SnapshotItem::Account(acc) => {
                let len = acc.data.len();
                self.total_accounts = saturating_add(self.total_accounts, 1);
                self.total_lamports = saturating_add(self.total_lamports, acc.lamports);
                self.total_data_bytes = saturating_add(self.total_data_bytes, len as u64);
                if acc.executable {
                    self.executable_accounts = saturating_add(self.executable_accounts, 1);
                }
                if len > self.max_account_size {
                    self.max_account_size = len;
                }
            },
            _ => {},
        }
    }
}

impl Default for SnapshotStats {
    fn default() -> (r: Self)
        ensures
            r@ == empty_stats(),
    {
        SnapshotStats {
            version: String::new(),
            slot: 0,
            epoch: 0,
            total_accounts: 0,
            total_lamports: 0,
            total_data_bytes: 0,
            executable_accounts: 0,
            max_account_size: 0,
        }
    }
}

/// Totals over the items of a snapshot walk, in order.
pub fn snapshot_stats(items: &Vec<SnapshotItem>) -> (r: SnapshotStats)
    ensures
        r@ == stats_of(items@),
{
    let mut stats = SnapshotStats::default();
    let mut i: usize = 0;
    while i < items.len()
        invariant
            i <= items@.len(),
            stats@ == stats_of(items@.subrange(0, i as int)),
        decreases items@.len() - i,
    {
        stats.record(&items[i]);
        proof {
            let s = items@.subrange(0, i + 1);
            assert(s.drop_last() =~= items@.subrange(0, i as int));
        }
        i = i + 1;
    }
    assert(items@.subrange(0, items@.len() as int) =~= items@);
    stats
}

} // verus!
