//! The kernel interception layer and its control plane, over explicit
//! models of the two kernel-resident tables.
//!
//! The file-open hook runs once per file-open, system-wide: it allows
//! non-executable files and non-candidates unconditionally, allows
//! whitelisted basenames, and otherwise records a detection for the calling
//! process and denies the open. Any input the kernel could not read fully
//! (an empty name) is allowed: a fault inside the hook must never block
//! the system, so only a fully evaluated miss denies.

use vstd::prelude::*;

verus! {

broadcast use vstd::array::group_array_axioms;

/// The width of a whitelist key: a basename truncated or zero-padded to
/// this many bytes.
pub const WHITELIST_KEY_WIDTH: usize = 64;

/// The width of a detection record's path buffer.
pub const DETECTION_PATH_WIDTH: usize = 256;

/// The bounded capacity of the detection table.
pub const DETECTION_CAPACITY: usize = 1024;

/// What the hook returns to block an open.
pub const EACCES_NEG: i32 = -13;

/// Whether a byte sequence contains the substring `.so`: the same
/// shared-library heuristic the process-map auditor applies.
pub open spec fn bytes_contain_so(name: Seq<u8>) -> bool {
    exists|i: int|
        0 <= i && i + 3 <= name.len() && #[trigger] name[i] == 46u8 && name[i + 1] == 115u8 && name[
            i + 2] == 111u8
}

/// Whether any execute mode bit (owner, group or other) is set.
pub open spec fn spec_mode_executable(mode: u16) -> bool {
    mode & 0o111 != 0
}

/// The fixed-width whitelist key of a name: truncated to the key width and
/// zero-padded.
pub open spec fn whitelist_key_of(name: Seq<u8>) -> Seq<u8> {
    Seq::new(
        WHITELIST_KEY_WIDTH as nat,
        |i: int|
            if i < name.len() {
                name[i]
            } else {
                0u8
            },
    )
}

/// The fixed-width path buffer of a detection record: the captured name,
/// truncated to the buffer width and zero-padded.
pub open spec fn path_buf_of(name: Seq<u8>) -> Seq<u8> {
    Seq::new(
        DETECTION_PATH_WIDTH as nat,
        |i: int|
            if i < name.len() {
                name[i]
            } else {
                0u8
            },
    )
}

/// Whether the first `len` bytes of `path` name a shared-library candidate.
pub fn is_shared_library(path: &[u8], len: usize) -> (r: bool)
    requires
        len <= path@.len(),
    ensures
        r == bytes_contain_so(path@.take(len as int)),
{
    let ghost name = path@.take(len as int);
    if len < 3 {
        return false;
    }
    let mut i: usize = 0;
    while i <= len - 3
        invariant
            0 <= i,
            i <= len <= path@.len(),
            3 <= len,
            name == path@.take(len as int),
            forall|k: int|
                0 <= k < i ==> !(#[trigger] name[k] == 46u8 && name[k + 1] == 115u8 && name[k + 2]
                    == 111u8),
        decreases len - i,
    {
        if path[i] == 46u8 && path[i + 1] == 115u8 && path[i + 2] == 111u8 {
            proof {
                assert(name[i as int] == 46u8 && name[i as int + 1] == 115u8 && name[i as int + 2]
                    == 111u8);
            }
            return true;
        }
        i = i + 1;
    }
    false
}

/// The kernel-resident whitelist: fixed-width basename keys with a presence
/// marker. The monitor populates it; the hook only reads it.
pub struct WhitelistTable {
    /// The keys present.
    pub keys: Vec<[u8; 64]>,
}

impl WhitelistTable {
    /// Whether a fixed-width key is present.
    pub open spec fn spec_contains(&self, key: Seq<u8>) -> bool {
        exists|k: int| 0 <= k < self.keys@.len() && (#[trigger] self.keys@[k])@ == key
    }

    /// An empty whitelist: nothing is present.
    pub fn new() -> (t: WhitelistTable)
        ensures
            forall|key: Seq<u8>| !t.spec_contains(key),
    {
        WhitelistTable { keys: Vec::new() }
    }

    /// Insert a name: its fixed-width key becomes present, and nothing else
    /// changes.
    pub fn insert_name(&mut self, name: &[u8])
        ensures
            forall|key: Seq<u8>|
                final(self).spec_contains(key) == (old(self).spec_contains(key) || key
                    == whitelist_key_of(name@)),
    {
        let key = make_whitelist_key(name);
        let ghost old_keys = self.keys@;
        self.keys.push(key);
        proof {
            assert forall|k: Seq<u8>|
                final(self).spec_contains(k) == (old(self).spec_contains(k) || k
                    == whitelist_key_of(name@)) by {
                if old(self).spec_contains(k) {
                    let w = choose|w: int|
                        0 <= w < old_keys.len() && (#[trigger] old_keys[w])@ == k;
                    assert(self.keys@[w]@ == k);
                }
                if k == whitelist_key_of(name@) {
                    assert(self.keys@[old_keys.len() as int]@ == k);
                }
                if final(self).spec_contains(k) {
                    let w = choose|w: int|
                        0 <= w < self.keys@.len() && (#[trigger] self.keys@[w])@ == k;
                    if w < old_keys.len() {
                        assert(old_keys[w]@ == k);
                    }
                }
            }
        }
    }

    /// Whether a fixed-width key is present.
    pub fn contains_key(&self, key: &[u8; 64]) -> (r: bool)
        ensures
            r == self.spec_contains(key@),
    {
        let mut i: usize = 0;
        while i < self.keys.len()
            invariant
                0 <= i <= self.keys@.len(),
                forall|k: int| 0 <= k < i ==> (#[trigger] self.keys@[k])@ != key@,
            decreases self.keys@.len() - i,
        {
            if array_eq_64(&self.keys[i], key) {
                proof {
                    assert(self.keys@[i as int]@ == key@);
                }
                return true;
            }
            i = i + 1;
        }
        false
    }
}

/// Whether two fixed-width keys hold the same bytes.
fn array_eq_64(a: &[u8; 64], b: &[u8; 64]) -> (r: bool)
    ensures
        r == (a@ == b@),
{
    let mut i: usize = 0;
    while i < 64
        invariant
            0 <= i <= 64,
            forall|k: int| 0 <= k < i ==> a@[k] == b@[k],
        decreases 64 - i,
    {
        if a[i] != b[i] {
            return false;
        }
        i = i + 1;
    }
    proof {
        assert(a@ =~= b@);
    }
    true
}

/// The fixed-width whitelist key of a name.
pub fn make_whitelist_key(name: &[u8]) -> (key: [u8; 64])
    ensures
        key@ == whitelist_key_of(name@),
{
    let mut key = [0u8; 64];
    let mut i: usize = 0;
    while i < 64 && i < name.len()
        invariant
            0 <= i <= 64,
            i <= name@.len(),
            key@.len() == 64,
            forall|k: int| 0 <= k < i ==> key@[k] == name@[k],
            forall|k: int| i <= k < 64 ==> key@[k] == 0u8,
        decreases 64 - i,
    {
        key[i] = name[i];
        i = i + 1;
    }
    proof {
        assert(key@ =~= whitelist_key_of(name@));
    }
    key
}

/// The fixed-width path buffer of a detection record.
pub fn make_path_buf(name: &[u8]) -> (buf: [u8; 256])
    ensures
        buf@ == path_buf_of(name@),
{
    let mut buf = [0u8; 256];
    let mut i: usize = 0;
    while i < 256 && i < name.len()
        invariant
            0 <= i <= 256,
            i <= name@.len(),
            buf@.len() == 256,
            forall|k: int| 0 <= k < i ==> buf@[k] == name@[k],
            forall|k: int| i <= k < 256 ==> buf@[k] == 0u8,
        decreases 256 - i,
    {
        buf[i] = name[i];
        i = i + 1;
    }
    proof {
        assert(buf@ =~= path_buf_of(name@));
    }
    buf
}

/// One detection record: the captured name, zero-padded to the path buffer
/// width, and the kernel timestamp in nanoseconds.
#[derive(Clone, Copy)]
pub struct UnauthorizedInfo {
    /// The captured basename, zero-padded.
    pub path: [u8; 256],
    /// The kernel clock reading at the detection, in nanoseconds.
    pub timestamp: u64,
}

/// The characters `String::from_utf8_lossy` yields for a byte sequence: a
/// function of the bytes alone.
pub uninterp spec fn utf8_lossy(bytes: Seq<u8>) -> Seq<char>;

/// Relies on `String::from_utf8_lossy`: decodes UTF-8, replacing invalid
/// sequences with the replacement character; ASCII bytes decode to
/// themselves.
#[verifier::external_body]
pub(crate) fn utf8_lossy_string(bytes: &[u8]) -> (r: String)
    ensures
        r@ == utf8_lossy(bytes@),
        (forall|i: int| 0 <= i < bytes@.len() ==> bytes@[i] < 128) ==> r@ == Seq::new(
            bytes@.len(),
            |i: int| bytes@[i] as char,
        ),
{
    String::from_utf8_lossy(bytes).into_owned()
}

/// The length of the NUL-terminated content of a buffer: the bytes before
/// the first zero, or all of them.
pub open spec fn nul_len(b: Seq<u8>) -> nat
    decreases b.len(),
{
    if b.len() == 0 {
        0
    } else if b[0] == 0 {
        0
    } else {
        1 + nul_len(b.drop_first())
    }
}

/// A position with only nonzero bytes before it, holding zero or past the
/// end, is the NUL length.
proof fn lemma_nul_len_at(b: Seq<u8>, i: int)
    requires
        0 <= i <= b.len(),
        forall|k: int| 0 <= k < i ==> b[k] != 0,
        i == b.len() || b[i] == 0,
    ensures
        nul_len(b) == i,
    decreases i,
{
    if i == 0 {
    } else {
        assert(b[0] != 0);
        assert(b.drop_first().len() == b.len() - 1);
        lemma_nul_len_at(b.drop_first(), i - 1);
    }
}

impl UnauthorizedInfo {
    /// The captured path as a string: the bytes up to the first NUL,
    /// decoded.
    pub fn path_str(&self) -> (r: String)
        ensures
            r@ == utf8_lossy(self.path@.take(nul_len(self.path@) as int)),
    {
        let mut bytes: Vec<u8> = Vec::new();
        let mut i: usize = 0;
        while i < 256 && self.path[i] != 0
            invariant
                0 <= i <= 256,
                self.path@.len() == 256,
                bytes@ == self.path@.take(i as int),
                forall|k: int| 0 <= k < i ==> self.path@[k] != 0,
            decreases 256 - i,
        {
            bytes.push(self.path[i]);
            proof {
                assert(bytes@ =~= self.path@.take(i as int + 1));
            }
            i = i + 1;
        }
        proof {
            lemma_nul_len_at(self.path@, i as int);
        }
        utf8_lossy_string(bytes.as_slice())
    }
}

/// The kernel-resident detection table, keyed by process id and bounded in
/// size. A process's second detection overwrites its first; an insert into a
/// full table is dropped, as the kernel map drops it.
pub struct DetectionTable {
    /// The records, one per process id.
    pub entries: Vec<(u64, UnauthorizedInfo)>,
}

impl DetectionTable {
    /// Process ids are unique and the capacity bound holds.
    pub open spec fn wf(&self) -> bool {
        &&& self.entries@.len() <= DETECTION_CAPACITY as int
        &&& forall|i: int, j: int|
            0 <= i < j < self.entries@.len() ==> (#[trigger] self.entries@[i]).0 != (
            #[trigger] self.entries@[j]).0
    }

    /// Whether a record exists for a process.
    pub open spec fn spec_contains_pid(&self, pid: u64) -> bool {
        exists|i: int| 0 <= i < self.entries@.len() && (#[trigger] self.entries@[i]).0 == pid
    }

    /// The record of a process, when one exists.
    pub open spec fn spec_record_of(&self, pid: u64) -> UnauthorizedInfo {
        let i = choose|i: int|
            0 <= i < self.entries@.len() && (#[trigger] self.entries@[i]).0 == pid;
        self.entries@[i].1
    }

    /// An empty table.
    pub fn new() -> (t: DetectionTable)
        ensures
            t.wf(),
            t.entries@.len() == 0,
            forall|q: u64| !t.spec_contains_pid(q),
    {
        DetectionTable { entries: Vec::new() }
    }

    /// The entry at a position is the record of its process.
    pub proof fn lemma_record_at(&self, i: int)
        requires
            self.wf(),
            0 <= i < self.entries@.len(),
        ensures
            self.spec_contains_pid(self.entries@[i].0),
            self.spec_record_of(self.entries@[i].0) == self.entries@[i].1,
    {
        let pid = self.entries@[i].0;
        assert(self.spec_contains_pid(pid));
        let j = choose|j: int|
            0 <= j < self.entries@.len() && (#[trigger] self.entries@[j]).0 == pid;
        if i < j {
            assert((self.entries@[i]).0 != (self.entries@[j]).0);
        }
        if j < i {
            assert((self.entries@[j]).0 != (self.entries@[i]).0);
        }
    }

    /// The position of a process's record, when one exists.
    fn find_pid(&self, pid: u64) -> (r: Option<usize>)
        ensures
            match r {
                Some(i) => i < self.entries@.len() && self.entries@[i as int].0 == pid,
                None => !self.spec_contains_pid(pid),
            },
    {
        let n = self.entries.len();
        let mut i: usize = 0;
        while i < n
            invariant
                0 <= i <= n,
                n == self.entries@.len(),
                forall|k: int| 0 <= k < i ==> (#[trigger] self.entries@[k]).0 != pid,
            decreases n - i,
        {
            if self.entries[i].0 == pid {
                return Some(i);
            }
            i = i + 1;
        }
        None
    }

    /// Record a detection: overwrite the process's record, or append one
    /// while the table has room; a full table drops the insert.
    pub fn insert(&mut self, pid: u64, info: UnauthorizedInfo)
        requires
            old(self).wf(),
        ensures
            final(self).wf(),
            forall|q: u64|
                q != pid ==> final(self).spec_contains_pid(q) == old(self).spec_contains_pid(q),
            forall|q: u64|
                q != pid && old(self).spec_contains_pid(q) ==> final(self).spec_record_of(q) == old(
                    self,
                ).spec_record_of(q),
            old(self).spec_contains_pid(pid) || old(self).entries@.len() < DETECTION_CAPACITY as int
                ==> final(self).spec_contains_pid(pid) && final(self).spec_record_of(pid) == info,
            !old(self).spec_contains_pid(pid) && old(self).entries@.len() >= DETECTION_CAPACITY
                as int ==> *final(self) == *old(self),
    {
        let found = self.find_pid(pid);
        match found {
            Some(i) => {
                self.entries[i] = (pid, info);
                proof {
                    let oldt = *old(self);
                    let newt = *self;
                    assert(newt.entries@ == oldt.entries@.update(i as int, (pid, info)));
                    assert(oldt.entries@[i as int].0 == pid);
                    assert forall|a: int, b: int|
                        0 <= a < b < newt.entries@.len() implies (#[trigger] newt.entries@[a]).0
                        != (#[trigger] newt.entries@[b]).0 by {
                        assert((newt.entries@[a]).0 == (oldt.entries@[a]).0);
                        assert((newt.entries@[b]).0 == (oldt.entries@[b]).0);
                    }
                    assert forall|q: u64| q != pid implies newt.spec_contains_pid(q) == oldt
                        .spec_contains_pid(q) by {
                        if newt.spec_contains_pid(q) {
                            let k = choose|k: int|
                                0 <= k < newt.entries@.len() && (#[trigger] newt.entries@[k]).0
                                    == q;
                            assert((oldt.entries@[k]).0 == q);
                        }
                        if oldt.spec_contains_pid(q) {
                            let k = choose|k: int|
                                0 <= k < oldt.entries@.len() && (#[trigger] oldt.entries@[k]).0
                                    == q;
                            assert((newt.entries@[k]).0 == q);
                        }
                    }
                    assert forall|q: u64|
                        q != pid && oldt.spec_contains_pid(q) implies newt.spec_record_of(q) == oldt
                        .spec_record_of(q) by {
                        let k = choose|k: int|
                            0 <= k < oldt.entries@.len() && (#[trigger] oldt.entries@[k]).0 == q;
                        oldt.lemma_record_at(k);
                        assert((newt.entries@[k]).0 == q);
                        newt.lemma_record_at(k);
                    }
                    assert((newt.entries@[i as int]).0 == pid);
                    newt.lemma_record_at(i as int);
                }
            },
            None => {
                if self.entries.len() < DETECTION_CAPACITY {
                    let ghost oldt = *old(self);
                    self.entries.push((pid, info));
                    proof {
                        let newt = *self;
                        let n = oldt.entries@.len() as int;
                        assert(newt.entries@ == oldt.entries@.push((pid, info)));
                        assert forall|a: int, b: int|
                            0 <= a < b < newt.entries@.len() implies (#[trigger] newt.entries@[a]).0
                            != (#[trigger] newt.entries@[b]).0 by {
                            if b < n {
                                assert((newt.entries@[a]).0 == (oldt.entries@[a]).0);
                                assert((newt.entries@[b]).0 == (oldt.entries@[b]).0);
                            } else {
                                assert((newt.entries@[b]).0 == pid);
                                assert((newt.entries@[a]).0 == (oldt.entries@[a]).0);
                                assert((oldt.entries@[a]).0 != pid);
                            }
                        }
                        assert forall|q: u64| q != pid implies newt.spec_contains_pid(q) == oldt
                            .spec_contains_pid(q) by {
                            if newt.spec_contains_pid(q) {
                                let k = choose|k: int|
                                    0 <= k < newt.entries@.len() && (#[trigger] newt.entries@[k]).0
                                        == q;
                                assert(k < n);
                                assert((oldt.entries@[k]).0 == q);
                            }
                            if oldt.spec_contains_pid(q) {
                                let k = choose|k: int|
                                    0 <= k < oldt.entries@.len() && (#[trigger] oldt.entries@[k]).0
                                        == q;
                                assert((newt.entries@[k]).0 == q);
                            }
                        }
                        assert forall|q: u64|
                            q != pid && oldt.spec_contains_pid(q) implies newt.spec_record_of(q)
                            == oldt.spec_record_of(q) by {
                            let k = choose|k: int|
                                0 <= k < oldt.entries@.len() && (#[trigger] oldt.entries@[k]).0
                                    == q;
                            oldt.lemma_record_at(k);
                            assert((newt.entries@[k]).0 == q);
                            newt.lemma_record_at(k);
                        }
                        assert((newt.entries@[n]).0 == pid);
                        newt.lemma_record_at(n);
                    }
                }
            },
        }
    }
}

/// What a recorded detection means: records of other processes are
/// untouched; the calling process gets a record carrying the captured name
/// and this event's clock reading, unless the table was already full and had
/// no record for it, in which case nothing changes.
pub open spec fn spec_records_detection(
    old_t: DetectionTable,
    new_t: DetectionTable,
    pid: u64,
    name: Seq<u8>,
    now_ns: u64,
) -> bool {
    &&& (forall|q: u64|
        q != pid ==> new_t.spec_contains_pid(q) == old_t.spec_contains_pid(q))
    &&& (forall|q: u64|
        q != pid && old_t.spec_contains_pid(q) ==> new_t.spec_record_of(q) == old_t.spec_record_of(
            q,
        ))
    &&& ((old_t.spec_contains_pid(pid) || old_t.entries@.len() < DETECTION_CAPACITY as int)
        ==> new_t.spec_contains_pid(pid) && new_t.spec_record_of(pid).path@ == path_buf_of(name)
        && new_t.spec_record_of(pid).timestamp == now_ns)
    &&& ((!old_t.spec_contains_pid(pid) && old_t.entries@.len() >= DETECTION_CAPACITY as int)
        ==> new_t == old_t)
}

/// The conditions under which the file-open hook allows an open: the file is
/// not executable, the kernel read yielded no name, the name is no
/// shared-library candidate, or its key is whitelisted.
pub open spec fn hook_allows(wl: WhitelistTable, mode: u16, name: Seq<u8>) -> bool {
    ||| !spec_mode_executable(mode)
    ||| name.len() == 0
    ||| !bytes_contain_so(name)
    ||| wl.spec_contains(whitelist_key_of(name))
}

/// The file-open hook's decision on one open event: `mode` is the inode's
/// mode bits, `name` the final path component the kernel read (empty when
/// the read failed), `pid` the calling process and `now_ns` the kernel
/// clock. Returns zero to allow; a policy miss records a detection and
/// returns the deny verdict, blocking the open.
pub fn check_file_open(
    whitelist: &WhitelistTable,
    detections: &mut DetectionTable,
    mode: u16,
    name: &[u8],
    pid: u64,
    now_ns: u64,
) -> (verdict: i32)
    requires
        old(detections).wf(),
    ensures
        final(detections).wf(),
        verdict == (if hook_allows(*whitelist, mode, name@) {
            0i32
        } else {
            EACCES_NEG
        }),
        hook_allows(*whitelist, mode, name@) ==> *final(detections) == *old(detections),
        !hook_allows(*whitelist, mode, name@) ==> spec_records_detection(
            *old(detections),
            *final(detections),
            pid,
            name@,
            now_ns,
        ),
{
    if mode & 0o111 == 0 {
        return 0;
    }
    let len = name.len();
    if len == 0 {
        return 0;
    }
    proof {
        assert(name@.take(len as int) =~= name@);
    }
    if !is_shared_library(name, len) {
        return 0;
    }
    let key = make_whitelist_key(name);
    if whitelist.contains_key(&key) {
        return 0;
    }
    let info = UnauthorizedInfo { path: make_path_buf(name), timestamp: now_ns };
    detections.insert(pid, info);
    EACCES_NEG
}

/// The exec hook: an attachment point reserved for process-execution
/// policy; it allows everything.
pub fn check_exec() -> (verdict: i32)
    ensures
        verdict == 0,
{
    0
}

} // verus!
