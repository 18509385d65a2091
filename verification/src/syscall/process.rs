//! The system calls that deal with the calling task itself: its end, its
//! place on the processor, the time, its own statistics, its mappings and
//! its heap.
use crate::config::{is_page_aligned, MAX_SYSCALL_NUM, PAGE_SIZE};
use crate::mm::model::{
    lemma_unmap_after_map, map_effect, range_free, range_mapped, range_valid, unmap_effect,
    write_effect, MapPermission,
};
use crate::syscall::wire::{
    le_byte, le_bytes, le_value, lemma_le_round_trip_exact, lemma_le_value_bound,
    lemma_pow256_words, push_le, read_le,
};
use crate::task::{
    brk_effect, brk_error, count_calls, lemma_count_calls_at_least, TaskControlBlock, TaskStatus,
    TaskView,
};
use vstd::prelude::*;
use vstd::slice::slice_subrange;

verus! {

/// Microseconds in a second.
pub const MICROS_PER_SEC: usize = 1_000_000;

/// Microseconds in a millisecond.
pub const MICROS_PER_MILLI: usize = 1_000;

/// Bytes that a time record takes in a task's memory.
pub const TIME_VAL_SIZE: usize = 16;

/// Where in a task record the call counters start.
pub const TASK_INFO_COUNTS_OFFSET: usize = 4;

/// Where in a task record the running time starts.
pub const TASK_INFO_TIME_OFFSET: usize = 2008;

/// Bytes that a task record takes in a task's memory.
pub const TASK_INFO_SIZE: usize = 2016;

/// A clock reading, cut into whole seconds and the microseconds beyond them.
#[derive(Clone, Copy, Debug, PartialEq, Eq, Structural)]
pub struct TimeVal {
    pub sec: usize,
    pub usec: usize,
}

impl TimeVal {
    /// The record for a clock reading of `us` microseconds.
    pub open spec fn of_micros(us: int) -> TimeVal {
        TimeVal {
            sec: (us / (MICROS_PER_SEC as int)) as usize,
            usec: (us % (MICROS_PER_SEC as int)) as usize,
        }
    }

    /// Whether `self` is not later than `other`, by seconds first and
    /// microseconds second.
    pub open spec fn not_after(self, other: TimeVal) -> bool {
        self.sec < other.sec || (self.sec == other.sec && self.usec <= other.usec)
    }

    /// The record as it lies in a task's memory: seconds, then microseconds,
    /// each as eight bytes with the least significant first.
    pub open spec fn encoding(self) -> Seq<u8> {
        le_bytes(self.sec as nat, 8) + le_bytes(self.usec as nat, 8)
    }

    /// The record that `bytes` hold, if they are a record's bytes and its
    /// numbers fit into a word.
    pub open spec fn decoding(bytes: Seq<u8>) -> Option<TimeVal> {
        let sec = le_value(bytes.subrange(0, 8));
        let usec = le_value(bytes.subrange(8, 16));
        if bytes.len() == TIME_VAL_SIZE && sec <= usize::MAX && usec <= usize::MAX {
            Some(TimeVal { sec: sec as usize, usec: usec as usize })
        } else {
            None
        }
    }

    /// A record is read back from its bytes unchanged.
    pub proof fn lemma_decoding_of_encoding(self)
        ensures
            Self::decoding(self.encoding()) == Some(self),
    {
        let bytes = self.encoding();
        assert(bytes.subrange(0, 8) =~= le_bytes(self.sec as nat, 8));
        assert(bytes.subrange(8, 16) =~= le_bytes(self.usec as nat, 8));
        lemma_pow256_words();
        lemma_le_round_trip_exact(self.sec as nat, 8);
        lemma_le_round_trip_exact(self.usec as nat, 8);
    }

    /// The record for a clock reading of `us` microseconds.
    pub fn from_micros(us: usize) -> (tv: TimeVal)
        ensures
            tv == Self::of_micros(us as int),
    {
        TimeVal { sec: us / MICROS_PER_SEC, usec: us % MICROS_PER_SEC }
    }

    /// The record as it lies in a task's memory.
    pub fn to_bytes(&self) -> (bytes: Vec<u8>)
        ensures
            bytes@ == self.encoding(),
            bytes@.len() == TIME_VAL_SIZE,
    {
        let mut bytes: Vec<u8> = Vec::new();
        push_le(&mut bytes, self.sec as u64, 8);
        push_le(&mut bytes, self.usec as u64, 8);
        assert(bytes@ =~= self.encoding());
        bytes
    }

    /// Reads a record from the bytes that a task's memory holds.
    pub fn from_bytes(bytes: &[u8]) -> (tv: Option<TimeVal>)
        ensures
            tv == Self::decoding(bytes@),
    {
        if bytes.len() != TIME_VAL_SIZE {
            return None;
        }
        let sec = read_le(slice_subrange(bytes, 0, 8)).unwrap();
        let usec = read_le(slice_subrange(bytes, 8, 16)).unwrap();
        if sec > usize::MAX as u64 || usec > usize::MAX as u64 {
            return None;
        }
        Some(TimeVal { sec: sec as usize, usec: usec as usize })
    }
}

/// A later clock reading gives a record that is not earlier.
pub proof fn lemma_time_val_monotonic(earlier: int, later: int)
    requires
        0 <= earlier <= later <= usize::MAX,
    ensures
        TimeVal::of_micros(earlier).not_after(TimeVal::of_micros(later)),
{
}

/// The milliseconds that have passed at clock reading `now_us` since a task
/// first ran. None have passed for a task that has not run yet, nor at a
/// reading from before its first run.
pub open spec fn elapsed_ms(first_start_time: Option<usize>, now_us: usize) -> usize {
    match first_start_time {
        Some(first) => if first <= now_us {
            ((now_us - first) / (MICROS_PER_MILLI as int)) as usize
        } else {
            0
        },
        None => 0,
    }
}

/// A task record as it lies in a task's memory: the status in the first
/// byte; from byte 4 on the counters, four bytes each; from byte 2008 on the
/// running time, eight bytes; numbers with the least significant byte first,
/// and zeroes in the gaps.
pub open spec fn task_info_encoding(
    status: TaskStatus,
    syscall_times: Seq<u32>,
    time: usize,
) -> Seq<u8> {
    Seq::new(
        TASK_INFO_SIZE as nat,
        |i: int|
            if i == 0 {
                status.code()
            } else if TASK_INFO_COUNTS_OFFSET <= i < TASK_INFO_COUNTS_OFFSET + 4 * MAX_SYSCALL_NUM {
                le_byte(
                    syscall_times[(i - TASK_INFO_COUNTS_OFFSET) / 4] as nat,
                    ((i - TASK_INFO_COUNTS_OFFSET) % 4) as nat,
                )
            } else if TASK_INFO_TIME_OFFSET <= i {
                le_byte(time as nat, (i - TASK_INFO_TIME_OFFSET) as nat)
            } else {
                0u8
            },
    )
}

/// The status that the bytes of a task record hold.
pub open spec fn decoded_status(bytes: Seq<u8>) -> Option<TaskStatus> {
    TaskStatus::of_code(bytes[0])
}

/// The counters that the bytes of a task record hold.
pub open spec fn decoded_counts(bytes: Seq<u8>) -> Seq<u32> {
    Seq::new(
        MAX_SYSCALL_NUM as nat,
        |i: int|
            le_value(
                bytes.subrange(
                    TASK_INFO_COUNTS_OFFSET + 4 * i,
                    TASK_INFO_COUNTS_OFFSET + 4 * i + 4,
                ),
            ) as u32,
    )
}

/// The running time that the bytes of a task record hold.
pub open spec fn decoded_time(bytes: Seq<u8>) -> nat {
    le_value(bytes.subrange(TASK_INFO_TIME_OFFSET as int, TASK_INFO_SIZE as int))
}

/// Whether `bytes` are the bytes of a task record: as many as a record has,
/// with a first byte that stands for a status and a running time that fits
/// into a word.
pub open spec fn task_info_decodable(bytes: Seq<u8>) -> bool {
    &&& bytes.len() == TASK_INFO_SIZE
    &&& decoded_status(bytes) is Some
    &&& decoded_time(bytes) <= usize::MAX
}

/// A task record is read back from its bytes unchanged.
pub proof fn lemma_task_info_round_trip(status: TaskStatus, syscall_times: Seq<u32>, time: usize)
    requires
        syscall_times.len() == MAX_SYSCALL_NUM,
    ensures
        task_info_decodable(task_info_encoding(status, syscall_times, time)),
        decoded_status(task_info_encoding(status, syscall_times, time)) == Some(status),
        decoded_counts(task_info_encoding(status, syscall_times, time)) == syscall_times,
        decoded_time(task_info_encoding(status, syscall_times, time)) == time,
{
    let bytes = task_info_encoding(status, syscall_times, time);
    lemma_pow256_words();
    assert(bytes.subrange(TASK_INFO_TIME_OFFSET as int, TASK_INFO_SIZE as int) =~= le_bytes(
        time as nat,
        8,
    ));
    lemma_le_round_trip_exact(time as nat, 8);
    assert forall|i: int| 0 <= i < MAX_SYSCALL_NUM implies #[trigger] decoded_counts(bytes)[i]
        == syscall_times[i] by {
        let at = TASK_INFO_COUNTS_OFFSET + 4 * i;
        assert(bytes.subrange(at, at + 4) =~= le_bytes(syscall_times[i] as nat, 4));
        lemma_le_round_trip_exact(syscall_times[i] as nat, 4);
    }
    assert(decoded_counts(bytes) =~= syscall_times);
}

/// A task that has made `n` calls of number `id`, and is then told about
/// itself, finds at least `n` in its record's counter for `id`.
pub proof fn lemma_task_info_shows_calls(syscall_times: Seq<u32>, id: int, n: nat, time: usize)
    requires
        syscall_times.len() == MAX_SYSCALL_NUM,
        0 <= id < MAX_SYSCALL_NUM,
        n <= u32::MAX,
    ensures
        decoded_counts(
            task_info_encoding(TaskStatus::Running, count_calls(syscall_times, id, n), time),
        )[id] >= n,
{
    lemma_count_calls_at_least(syscall_times, id, n);
    lemma_task_info_round_trip(TaskStatus::Running, count_calls(syscall_times, id, n), time);
}

/// What a task is told about itself.
pub struct TaskInfo {
    /// Where the task stands in its life.
    pub status: TaskStatus,
    /// How often the task has made each system call.
    pub syscall_times: [u32; MAX_SYSCALL_NUM],
    /// Milliseconds since the task first ran.
    pub time: usize,
}

impl TaskInfo {
    /// The record as it lies in a task's memory.
    pub open spec fn encoding(self) -> Seq<u8> {
        task_info_encoding(self.status, self.syscall_times@, self.time)
    }

    /// What the running task `task` is told at clock reading `now_us`: that
    /// it is running, its counters as they stand, and the milliseconds since
    /// it first ran.
    pub fn snapshot(task: &TaskControlBlock, now_us: usize) -> (info: TaskInfo)
        ensures
            info.status == TaskStatus::Running,
            info.syscall_times@ == task@.syscall_times,
            info.time == elapsed_ms(task@.first_start_time, now_us),
    {
        let time = match task.first_start_time() {
            Some(first) => if first <= now_us {
                (now_us - first) / MICROS_PER_MILLI
            } else {
                0
            },
            None => 0,
        };
        TaskInfo { status: TaskStatus::Running, syscall_times: task.syscall_times(), time }
    }

    /// The record as it lies in a task's memory.
    pub fn to_bytes(&self) -> (bytes: Vec<u8>)
        ensures
            bytes@ == self.encoding(),
            bytes@.len() == TASK_INFO_SIZE,
    {
        let ghost whole = self.encoding();
        let mut bytes: Vec<u8> = Vec::new();
        bytes.push(self.status.to_byte());
        bytes.push(0);
        bytes.push(0);
        bytes.push(0);
        assert(bytes@ =~= whole.subrange(0, 4));
        let mut i: usize = 0;
        while i < MAX_SYSCALL_NUM
            invariant
                i <= MAX_SYSCALL_NUM,
                whole == self.encoding(),
                bytes@ == whole.subrange(0, 4 + 4 * i),
            decreases MAX_SYSCALL_NUM - i,
        {
            push_le(&mut bytes, self.syscall_times[i] as u64, 4);
            assert(bytes@ =~= whole.subrange(0, 4 + 4 * (i + 1)));
            i += 1;
        }
        bytes.push(0);
        bytes.push(0);
        bytes.push(0);
        bytes.push(0);
        assert(bytes@ =~= whole.subrange(0, TASK_INFO_TIME_OFFSET as int));
        push_le(&mut bytes, self.time as u64, 8);
        assert(bytes@ =~= whole);
        bytes
    }

    /// Reads a record from the bytes that a task's memory holds. There is
    /// none unless the bytes are those of a task record.
    pub fn from_bytes(bytes: &[u8]) -> (info: Option<TaskInfo>)
        ensures
            info is Some <==> task_info_decodable(bytes@),
            info matches Some(read) ==> {
                &&& Some(read.status) == decoded_status(bytes@)
                &&& read.syscall_times@ == decoded_counts(bytes@)
                &&& read.time == decoded_time(bytes@)
            },
    {
        if bytes.len() != TASK_INFO_SIZE {
            return None;
        }
        let status = match TaskStatus::from_byte(bytes[0]) {
            Some(status) => status,
            None => {
                return None;
            },
        };
        let time = read_le(slice_subrange(bytes, TASK_INFO_TIME_OFFSET, TASK_INFO_SIZE)).unwrap();
        if time > usize::MAX as u64 {
            return None;
        }
        let mut syscall_times = [0u32;MAX_SYSCALL_NUM];
        let mut i: usize = 0;
        while i < MAX_SYSCALL_NUM
            invariant
                i <= MAX_SYSCALL_NUM,
                bytes@.len() == TASK_INFO_SIZE,
                forall|k: int| 0 <= k < i ==> syscall_times@[k] == decoded_counts(bytes@)[k],
            decreases MAX_SYSCALL_NUM - i,
        {
            let at = TASK_INFO_COUNTS_OFFSET + 4 * i;
            let count = read_le(slice_subrange(bytes, at, at + 4)).unwrap();
            proof {
                lemma_le_value_bound(bytes@.subrange(at as int, at + 4));
                lemma_pow256_words();
            }
            syscall_times[i] = count as u32;
            i += 1;
        }
        assert(syscall_times@ =~= decoded_counts(bytes@));
        Some(TaskInfo { status, syscall_times, time: time as usize })
    }
}

/// Handed back by `sys_exit` in place of a return to the task: the task has
/// left, and all that is left to do is to run another one.
pub struct Terminated {
    /// The code that the task asked to leave with.
    pub exit_code: i32,
}

/// Ends the calling task with `exit_code`: the task is marked as having left
/// and keeps the code. What comes back is not for the task, which is never
/// run again; it tells the caller to go on with another task.
pub fn sys_exit(task: &mut TaskControlBlock, exit_code: i32) -> (end: Terminated)
    ensures
        end.exit_code == exit_code,
        final(task)@ == (TaskView {
            status: TaskStatus::Exited,
            exit_code: if old(task)@.status == TaskStatus::Exited {
                old(task)@.exit_code
            } else {
                Some(exit_code)
            },
            ..old(task)@
        }),
{
    task.exit(exit_code);
    Terminated { exit_code }
}

/// Gives up the processor for now: a running task becomes ready, so that
/// another one can be chosen. The value is what the task finds when it runs
/// again.
pub fn sys_yield(task: &mut TaskControlBlock) -> (ret: isize)
    ensures
        ret == 0,
        final(task)@ == (TaskView {
            status: if old(task)@.status == TaskStatus::Running {
                TaskStatus::Ready
            } else {
                old(task)@.status
            },
            ..old(task)@
        }),
{
    task.suspend();
    0
}

/// Stores the clock reading `now_us` as a time record at address `ts` of the
/// calling task. The second argument is kept for a time zone and not looked
/// at. Gives 0, or -1 if the sixteen bytes at `ts` are not all mapped, in
/// which case nothing is stored.
pub fn sys_get_time(task: &mut TaskControlBlock, ts: usize, _tz: usize, now_us: usize) -> (ret:
    isize)
    ensures
        ret == 0 || ret == -1,
        ret == 0 <==> range_valid(ts as int, TIME_VAL_SIZE as int) && range_mapped(
            old(task)@.memory,
            ts as int,
            TIME_VAL_SIZE as int,
        ),
        ret == 0 ==> final(task)@ == (TaskView {
            memory: write_effect(
                old(task)@.memory,
                ts as int,
                TimeVal::of_micros(now_us as int).encoding(),
            ),
            ..old(task)@
        }),
        ret == -1 ==> final(task)@ == old(task)@,
{
    let record = TimeVal::from_micros(now_us);
    let bytes = record.to_bytes();
    match task.copy_to_user(ts, bytes.as_slice()) {
        Ok(()) => 0,
        Err(_) => -1,
    }
}

/// Stores what the calling task is told about itself at clock reading
/// `now_us` as a task record at address `ti`. Gives 0, or -1 if the bytes of
/// the record at `ti` are not all mapped, in which case nothing is stored.
pub fn sys_task_info(task: &mut TaskControlBlock, ti: usize, now_us: usize) -> (ret: isize)
    ensures
        ret == 0 || ret == -1,
        ret == 0 <==> range_valid(ti as int, TASK_INFO_SIZE as int) && range_mapped(
            old(task)@.memory,
            ti as int,
            TASK_INFO_SIZE as int,
        ),
        ret == 0 ==> final(task)@ == (TaskView {
            memory: write_effect(
                old(task)@.memory,
                ti as int,
                task_info_encoding(
                    TaskStatus::Running,
                    old(task)@.syscall_times,
                    elapsed_ms(old(task)@.first_start_time, now_us),
                ),
            ),
            ..old(task)@
        }),
        ret == -1 ==> final(task)@ == old(task)@,
{
    let info = TaskInfo::snapshot(task, now_us);
    let bytes = info.to_bytes();
    match task.copy_to_user(ti, bytes.as_slice()) {
        Ok(()) => 0,
        Err(_) => -1,
    }
}

/// Whether a request to map `len` bytes at `start` with permission word
/// `perm_bits` is granted: `start` is a page boundary, `perm_bits` names at
/// least one of read, write and execute and nothing else, and either there is
/// nothing to map or the range ends inside the address space and none of its
/// pages is mapped yet.
pub open spec fn mmap_granted(t: TaskView, start: usize, len: usize, perm_bits: usize) -> bool {
    &&& start % PAGE_SIZE == 0
    &&& MapPermission::valid_bits(perm_bits as int)
    &&& (len == 0 || (range_valid(start as int, len as int) && range_free(
        t.memory,
        start as int,
        len as int,
    )))
}

/// Maps fresh zeroed pages over the `len` bytes at `start`, rounded up to
/// whole pages, with the permissions that `perm_bits` names. Gives 0, or -1
/// if the request is not granted, in which case nothing changes. A request
/// is looked at in this order: where it starts, what it may do, how long it
/// is.
pub fn sys_mmap(task: &mut TaskControlBlock, start: usize, len: usize, perm_bits: usize) -> (ret:
    isize)
    ensures
        ret == 0 || ret == -1,
        ret == 0 <==> mmap_granted(old(task)@, start, len, perm_bits),
        ret == 0 ==> final(task)@ == (TaskView {
            memory: map_effect(
                old(task)@.memory,
                start as int,
                len as int,
                MapPermission::of_bits(perm_bits as int),
            ),
            ..old(task)@
        }),
        ret == -1 ==> final(task)@ == old(task)@,
        start % PAGE_SIZE != 0 ==> ret == -1,
        perm_bits == 0 || perm_bits > 7 ==> ret == -1,
        start % PAGE_SIZE == 0 && 1 <= perm_bits <= 7 && len == 0 ==> ret == 0 && final(task)@
            == old(task)@,
{
    if !is_page_aligned(start) {
        return -1;
    }
    let perm = match MapPermission::from_bits(perm_bits) {
        Some(perm) => perm,
        None => {
            return -1;
        },
    };
    if len == 0 {
        assert(map_effect(task@.memory, start as int, 0, perm) =~= task@.memory);
        return 0;
    }
    match task.map_new_pages(start, len, perm) {
        Ok(()) => 0,
        Err(_) => -1,
    }
}

/// Whether a request to unmap `len` bytes at `start` is granted: `start` is a
/// page boundary, and either there is nothing to unmap or the range ends
/// inside the address space and all of its pages are mapped.
pub open spec fn munmap_granted(t: TaskView, start: usize, len: usize) -> bool {
    &&& start % PAGE_SIZE == 0
    &&& (len == 0 || (range_valid(start as int, len as int) && range_mapped(
        t.memory,
        start as int,
        len as int,
    )))
}

/// Unmaps the pages of the `len` bytes at `start`, rounded up to whole pages.
/// Gives 0, or -1 if the request is not granted, in which case nothing
/// changes.
pub fn sys_munmap(task: &mut TaskControlBlock, start: usize, len: usize) -> (ret: isize)
    ensures
        ret == 0 || ret == -1,
        ret == 0 <==> munmap_granted(old(task)@, start, len),
        ret == 0 ==> final(task)@ == (TaskView {
            memory: unmap_effect(old(task)@.memory, start as int, len as int),
            ..old(task)@
        }),
        ret == -1 ==> final(task)@ == old(task)@,
{
    if !is_page_aligned(start) {
        return -1;
    }
    if len == 0 {
        assert(unmap_effect(task@.memory, start as int, 0) =~= task@.memory);
        return 0;
    }
    match task.unmap_pages(start, len) {
        Ok(()) => 0,
        Err(_) => -1,
    }
}

/// A granted request to map, followed at once by the request to unmap the
/// same range, is granted too and leaves the task's memory as it was before
/// the two.
pub proof fn lemma_munmap_undoes_mmap(t: TaskView, start: usize, len: usize, perm_bits: usize)
    requires
        mmap_granted(t, start, len, perm_bits),
    ensures
        ({
            let mapped = TaskView {
                memory: map_effect(
                    t.memory,
                    start as int,
                    len as int,
                    MapPermission::of_bits(perm_bits as int),
                ),
                ..t
            };
            &&& munmap_granted(mapped, start, len)
            &&& unmap_effect(mapped.memory, start as int, len as int) == t.memory
        }),
{
    lemma_unmap_after_map(
        t.memory,
        start as int,
        len as int,
        MapPermission::of_bits(perm_bits as int),
    );
}

/// Moves the end of the calling task's heap by `size` bytes. Gives the
/// address at which the heap ended before, or -1 if the heap cannot be
/// resized so, in which case nothing changes.
pub fn sys_sbrk(task: &mut TaskControlBlock, size: i32) -> (ret: isize)
    ensures
        ret == -1 <==> brk_error(old(task)@, size as int) is Some,
        ret == -1 ==> final(task)@ == old(task)@,
        ret != -1 ==> ret == old(task)@.program_brk && final(task)@ == brk_effect(
            old(task)@,
            size as int,
        ),
{
    proof {
        use_type_invariant(&*task);
    }
    match task.change_program_brk(size) {
        Ok(old_brk) => old_brk as isize,
        Err(_) => -1,
    }
}

} // verus!
