//! A task as the system calls see it: where it stands in its life, how often
//! it has made each call, its address space and its heap.
use crate::config::{is_page_aligned, MAX_SYSCALL_NUM, PAGE_SIZE};
use crate::error::SyscallError;
use crate::mm::address_space::AddressSpace;
use crate::mm::model::{
    map_effect, memory_wf, range_free, range_mapped, range_valid, unmap_effect, write_effect,
    MapPermission, PageView,
};
use vstd::prelude::*;

verus! {

/// Where a task stands in its life.
#[derive(Clone, Copy, Debug, PartialEq, Eq, Structural)]
pub enum TaskStatus {
    UnInit,
    Ready,
    Running,
    Exited,
}

impl TaskStatus {
    /// The byte that stands for the status in a record.
    pub open spec fn code(self) -> u8 {
        match self {
            TaskStatus::UnInit => 0,
            TaskStatus::Ready => 1,
            TaskStatus::Running => 2,
            TaskStatus::Exited => 3,
        }
    }

    /// The status that a byte stands for in a record, if it stands for one.
    pub open spec fn of_code(byte: u8) -> Option<TaskStatus> {
        if byte == 0 {
            Some(TaskStatus::UnInit)
        } else if byte == 1 {
            Some(TaskStatus::Ready)
        } else if byte == 2 {
            Some(TaskStatus::Running)
        } else if byte == 3 {
            Some(TaskStatus::Exited)
        } else {
            None
        }
    }

    /// The status that a byte stands for in a record, if it stands for one.
    pub fn from_byte(byte: u8) -> (status: Option<TaskStatus>)
        ensures
            status == Self::of_code(byte),
    {
        match byte {
            0 => Some(TaskStatus::UnInit),
            1 => Some(TaskStatus::Ready),
            2 => Some(TaskStatus::Running),
            3 => Some(TaskStatus::Exited),
            _ => None,
        }
    }

    /// The byte that stands for the status in a record.
    pub fn to_byte(self) -> (byte: u8)
        ensures
            byte == self.code(),
    {
        match self {
            TaskStatus::UnInit => 0,
            TaskStatus::Ready => 1,
            TaskStatus::Running => 2,
            TaskStatus::Exited => 3,
        }
    }
}

/// A task as the contracts speak of it.
pub struct TaskView {
    /// Where the task stands in its life.
    pub status: TaskStatus,
    /// How often the task has made each system call, by the call's number.
    pub syscall_times: Seq<u32>,
    /// The clock reading, in microseconds, when the task ran for the first
    /// time.
    pub first_start_time: Option<usize>,
    /// The code that the task left with.
    pub exit_code: Option<i32>,
    /// The mapped pages.
    pub memory: Map<int, PageView>,
    /// Lowest address of the heap.
    pub heap_bottom: usize,
    /// Address after the last byte of the heap.
    pub program_brk: usize,
}

/// What holds of every task: it has a counter for each call, its heap starts
/// on a page boundary and ends at an address that a signed word can hold, it
/// has an exit code exactly if it has left, and its pages are whole.
pub open spec fn task_wf(t: TaskView) -> bool {
    &&& t.syscall_times.len() == MAX_SYSCALL_NUM
    &&& t.heap_bottom % PAGE_SIZE == 0
    &&& t.heap_bottom <= t.program_brk <= isize::MAX
    &&& (t.status == TaskStatus::Exited <==> t.exit_code is Some)
    &&& memory_wf(t.memory)
}

/// The counters after one more call of number `id`. A counter that is full
/// stays full; a number that no counter is kept for is not counted.
pub open spec fn count_call(times: Seq<u32>, id: int) -> Seq<u32> {
    if 0 <= id < times.len() {
        times.update(id, if times[id] < u32::MAX { (times[id] + 1) as u32 } else { u32::MAX })
    } else {
        times
    }
}

/// The counters after `n` more calls of number `id`.
pub open spec fn count_calls(times: Seq<u32>, id: int, n: nat) -> Seq<u32>
    decreases n,
{
    if n == 0 {
        times
    } else {
        count_call(count_calls(times, id, (n - 1) as nat), id)
    }
}

/// Counting a call takes nothing away from any counter.
pub proof fn lemma_count_call_monotonic(times: Seq<u32>, id: int, other: int)
    requires
        0 <= other < times.len(),
    ensures
        count_call(times, id).len() == times.len(),
        count_call(times, id)[other] >= times[other],
{
}

/// After `n` calls of one number its counter shows `n` more than before, or
/// is full.
pub proof fn lemma_count_calls_value(times: Seq<u32>, id: int, n: nat)
    requires
        0 <= id < times.len(),
    ensures
        count_calls(times, id, n).len() == times.len(),
        count_calls(times, id, n)[id] == if times[id] + n <= u32::MAX {
            (times[id] + n) as u32
        } else {
            u32::MAX
        },
        forall|other: int|
            0 <= other < times.len() && other != id ==> count_calls(times, id, n)[other]
                == times[other],
    decreases n,
{
    if n > 0 {
        lemma_count_calls_value(times, id, (n - 1) as nat);
    }
}

/// After `n` calls of one number its counter shows at least `n`, for every
/// `n` that a counter can hold.
pub proof fn lemma_count_calls_at_least(times: Seq<u32>, id: int, n: nat)
    requires
        0 <= id < times.len(),
        n <= u32::MAX,
    ensures
        count_calls(times, id, n).len() == times.len(),
        count_calls(times, id, n)[id] >= n,
{
    lemma_count_calls_value(times, id, n);
}

/// The lowest page boundary that is not below `addr`.
pub open spec fn page_ceiling(addr: int) -> int {
    ((addr + PAGE_SIZE - 1) / (PAGE_SIZE as int)) * PAGE_SIZE
}

/// What the pages of a heap are mapped with: read and write.
pub open spec fn heap_permission() -> MapPermission {
    MapPermission { readable: true, writable: true, executable: false }
}

/// Why the heap of `t` cannot be resized by `size` bytes, if it cannot: the
/// new end would lie below the heap's start; or past the highest address that
/// a signed word can hold; or the heap would grow into a page that is mapped
/// already.
pub open spec fn brk_error(t: TaskView, size: int) -> Option<SyscallError> {
    let new_brk = t.program_brk + size;
    if new_brk < t.heap_bottom {
        Some(SyscallError::InvalidArgument)
    } else if new_brk > isize::MAX {
        Some(SyscallError::ResourceExhausted)
    } else if size > 0 && !range_free(
        t.memory,
        page_ceiling(t.program_brk as int),
        page_ceiling(new_brk) - page_ceiling(t.program_brk as int),
    ) {
        Some(SyscallError::ResourceExhausted)
    } else {
        None
    }
}

/// The task after its heap was resized by `size` bytes: the end of the heap
/// has moved, and the pages between the old end and the new one were mapped,
/// zeroed, if the heap grew, and unmapped if it shrank.
pub open spec fn brk_effect(t: TaskView, size: int) -> TaskView {
    let new_brk = t.program_brk + size;
    let old_top = page_ceiling(t.program_brk as int);
    let new_top = page_ceiling(new_brk);
    TaskView {
        program_brk: new_brk as usize,
        memory: if size >= 0 {
            map_effect(t.memory, old_top, new_top - old_top, heap_permission())
        } else {
            unmap_effect(t.memory, new_top, old_top - new_top)
        },
        ..t
    }
}

/// The state of one task.
pub struct TaskControlBlock {
    status: TaskStatus,
    syscall_times: [u32; MAX_SYSCALL_NUM],
    first_start_time: Option<usize>,
    // Read only once the task has left.
    exit_code: i32,
    memory: AddressSpace,
    heap_bottom: usize,
    program_brk: usize,
}

impl View for TaskControlBlock {
    type V = TaskView;

    closed spec fn view(&self) -> TaskView {
        TaskView {
            status: self.status,
            syscall_times: self.syscall_times@,
            first_start_time: self.first_start_time,
            exit_code: if self.status == TaskStatus::Exited {
                Some(self.exit_code)
            } else {
                None
            },
            memory: self.memory@,
            heap_bottom: self.heap_bottom,
            program_brk: self.program_brk,
        }
    }
}

impl TaskControlBlock {
    /// Holds of every task.
    #[verifier::type_invariant]
    pub open spec fn well_formed(self) -> bool {
        task_wf(self@)
    }

    /// A task that is ready to run for the first time, with nothing mapped,
    /// no call counted and an empty heap at `heap_bottom`. There is no such
    /// task unless `heap_bottom` is a page boundary that a signed word can
    /// hold.
    pub fn new(heap_bottom: usize) -> (task: Option<TaskControlBlock>)
        ensures
            task is Some <==> heap_bottom % PAGE_SIZE == 0 && heap_bottom <= isize::MAX,
            task matches Some(t) ==> t@ == (TaskView {
                status: TaskStatus::Ready,
                syscall_times: Seq::new(MAX_SYSCALL_NUM as nat, |i: int| 0u32),
                first_start_time: None,
                exit_code: None,
                memory: Map::empty(),
                heap_bottom,
                program_brk: heap_bottom,
            }),
    {
        if !is_page_aligned(heap_bottom) || heap_bottom > isize::MAX as usize {
            return None;
        }
        let t = TaskControlBlock {
            status: TaskStatus::Ready,
            syscall_times: [0u32;MAX_SYSCALL_NUM],
            first_start_time: None,
            exit_code: 0,
            memory: AddressSpace::new(),
            heap_bottom,
            program_brk: heap_bottom,
        };
        assert(t@.syscall_times =~= Seq::new(MAX_SYSCALL_NUM as nat, |i: int| 0u32));
        Some(t)
    }

    /// Where the task stands in its life.
    pub fn status(&self) -> (status: TaskStatus)
        ensures
            status == self@.status,
    {
        self.status
    }

    /// How often the task has made each system call.
    pub fn syscall_times(&self) -> (times: [u32; MAX_SYSCALL_NUM])
        ensures
            times@ == self@.syscall_times,
    {
        self.syscall_times
    }

    /// The clock reading when the task ran for the first time.
    pub fn first_start_time(&self) -> (time: Option<usize>)
        ensures
            time == self@.first_start_time,
    {
        self.first_start_time
    }

    /// The code that the task left with.
    pub fn exit_code(&self) -> (code: Option<i32>)
        ensures
            code == self@.exit_code,
    {
        match self.status {
            TaskStatus::Exited => Some(self.exit_code),
            _ => None,
        }
    }

    /// The task's address space.
    pub fn memory(&self) -> (memory: &AddressSpace)
        ensures
            memory@ == self@.memory,
    {
        &self.memory
    }

    /// Lowest address of the heap.
    pub fn heap_bottom(&self) -> (addr: usize)
        ensures
            addr == self@.heap_bottom,
    {
        self.heap_bottom
    }

    /// Address after the last byte of the heap.
    pub fn program_brk(&self) -> (addr: usize)
        ensures
            addr == self@.program_brk,
    {
        self.program_brk
    }

    /// Puts the task on the processor, at clock reading `now_us`. The first
    /// time this happens the reading is kept. A task that has left is not run
    /// again.
    pub fn resume(&mut self, now_us: usize) -> (running: bool)
        ensures
            running == (old(self)@.status != TaskStatus::Exited),
            running ==> final(self)@ == (TaskView {
                status: TaskStatus::Running,
                first_start_time: if old(self)@.first_start_time is Some {
                    old(self)@.first_start_time
                } else {
                    Some(now_us)
                },
                ..old(self)@
            }),
            !running ==> final(self)@ == old(self)@,
    {
        proof {
            use_type_invariant(&*self);
        }
        match self.status {
            TaskStatus::Exited => false,
            _ => {
                let first = match self.first_start_time {
                    Some(t) => Some(t),
                    None => Some(now_us),
                };
                self.first_start_time = first;
                self.status = TaskStatus::Running;
                true
            },
        }
    }

    /// Takes the task off the processor for now: a running task becomes
    /// ready, any other stays as it is.
    pub fn suspend(&mut self)
        ensures
            final(self)@ == (TaskView {
                status: if old(self)@.status == TaskStatus::Running {
                    TaskStatus::Ready
                } else {
                    old(self)@.status
                },
                ..old(self)@
            }),
    {
        proof {
            use_type_invariant(&*self);
        }
        match self.status {
            TaskStatus::Running => {
                self.status = TaskStatus::Ready;
            },
            _ => {},
        }
    }

    /// Ends the task with `exit_code`. A task that has left already keeps the
    /// code it left with.
    pub fn exit(&mut self, exit_code: i32)
        ensures
            final(self)@ == (TaskView {
                status: TaskStatus::Exited,
                exit_code: if old(self)@.status == TaskStatus::Exited {
                    old(self)@.exit_code
                } else {
                    Some(exit_code)
                },
                ..old(self)@
            }),
    {
        proof {
            use_type_invariant(&*self);
        }
        match self.status {
            TaskStatus::Exited => {},
            _ => {
                self.exit_code = exit_code;
                self.status = TaskStatus::Exited;
            },
        }
    }

    /// Counts one call of number `id`.
    pub fn record_syscall(&mut self, id: usize)
        ensures
            final(self)@ == (TaskView {
                syscall_times: count_call(old(self)@.syscall_times, id as int),
                ..old(self)@
            }),
    {
        proof {
            use_type_invariant(&*self);
        }
        if id < MAX_SYSCALL_NUM {
            let mut times = self.syscall_times;
            let seen = times[id];
            times[id] = if seen < u32::MAX { seen + 1 } else { u32::MAX };
            self.syscall_times = times;
        }
    }

    /// Stores `data` at address `dest` of the task, page by page. Nothing is
    /// stored unless the whole range is mapped.
    pub fn copy_to_user(&mut self, dest: usize, data: &[u8]) -> (done: Result<(), SyscallError>)
        ensures
            done is Ok <==> range_valid(dest as int, data@.len() as int) && range_mapped(
                old(self)@.memory,
                dest as int,
                data@.len() as int,
            ),
            done is Ok ==> final(self)@ == (TaskView {
                memory: write_effect(old(self)@.memory, dest as int, data@),
                ..old(self)@
            }),
            done matches Err(e) ==> e == SyscallError::InvalidAddress && final(self)@ == old(self)@,
    {
        proof {
            use_type_invariant(&*self);
        }
        let mut memory = AddressSpace::new();
        std::mem::swap(&mut memory, &mut self.memory);
        let done = memory.write_bytes(dest, data);
        self.memory = memory;
        done
    }

    /// Maps fresh zeroed pages over the byte range `[start, start + len)`.
    /// Nothing is mapped unless the range ends inside the address space and
    /// all of its pages are free.
    pub fn map_new_pages(&mut self, start: usize, len: usize, perm: MapPermission) -> (done: Result<
        (),
        SyscallError,
    >)
        ensures
            done is Ok <==> range_valid(start as int, len as int) && range_free(
                old(self)@.memory,
                start as int,
                len as int,
            ),
            done is Ok ==> final(self)@ == (TaskView {
                memory: map_effect(old(self)@.memory, start as int, len as int, perm),
                ..old(self)@
            }),
            done matches Err(e) ==> e == SyscallError::InvalidAddress && final(self)@ == old(self)@,
    {
        proof {
            use_type_invariant(&*self);
        }
        let mut memory = AddressSpace::new();
        std::mem::swap(&mut memory, &mut self.memory);
        let done = memory.map_new_pages(start, len, perm);
        self.memory = memory;
        done
    }

    /// Unmaps the pages of the byte range `[start, start + len)`. Nothing is
    /// unmapped unless the range ends inside the address space and all of its
    /// pages are mapped.
    pub fn unmap_pages(&mut self, start: usize, len: usize) -> (done: Result<(), SyscallError>)
        ensures
            done is Ok <==> range_valid(start as int, len as int) && range_mapped(
                old(self)@.memory,
                start as int,
                len as int,
            ),
            done is Ok ==> final(self)@ == (TaskView {
                memory: unmap_effect(old(self)@.memory, start as int, len as int),
                ..old(self)@
            }),
            done matches Err(e) ==> e == SyscallError::InvalidAddress && final(self)@ == old(self)@,
    {
        proof {
            use_type_invariant(&*self);
        }
        let mut memory = AddressSpace::new();
        std::mem::swap(&mut memory, &mut self.memory);
        let done = memory.unmap_pages(start, len);
        self.memory = memory;
        done
    }

    /// Moves the end of the heap by `size` bytes, up or down, and maps or
    /// unmaps the pages in between. Gives back the address at which the heap
    /// ended before.
    pub fn change_program_brk(&mut self, size: i32) -> (old_brk: Result<usize, SyscallError>)
        ensures
            match brk_error(old(self)@, size as int) {
                Some(e) => old_brk == Err::<usize, SyscallError>(e) && final(self)@ == old(self)@,
                None => old_brk == Ok::<usize, SyscallError>(old(self)@.program_brk) && final(self)@
                    == brk_effect(old(self)@, size as int),
            },
    {
        proof {
            use_type_invariant(&*self);
        }
        let old_brk = self.program_brk;
        let old_top = page_ceiling_of(old_brk);
        if size >= 0 {
            let grow = size as usize;
            if grow > isize::MAX as usize - old_brk {
                return Err(SyscallError::ResourceExhausted);
            }
            let new_brk = old_brk + grow;
            let new_top = page_ceiling_of(new_brk);
            let mut memory = AddressSpace::new();
            std::mem::swap(&mut memory, &mut self.memory);
            let done = memory.map_new_pages(old_top, new_top - old_top, heap_permission_of());
            self.memory = memory;
            match done {
                Ok(()) => {
                    self.program_brk = new_brk;
                    Ok(old_brk)
                },
                Err(_) => Err(SyscallError::ResourceExhausted),
            }
        } else {
            let shrink = (-(size as i64)) as usize;
            if shrink > old_brk - self.heap_bottom {
                return Err(SyscallError::InvalidArgument);
            }
            let new_brk = old_brk - shrink;
            let new_top = page_ceiling_of(new_brk);
            let mut memory = AddressSpace::new();
            std::mem::swap(&mut memory, &mut self.memory);
            memory.release_pages(new_top, old_top - new_top);
            self.memory = memory;
            self.program_brk = new_brk;
            Ok(old_brk)
        }
    }
}

/// The lowest page boundary that is not below `addr`.
fn page_ceiling_of(addr: usize) -> (top: usize)
    requires
        addr <= isize::MAX,
    ensures
        top == page_ceiling(addr as int),
        addr <= top <= isize::MAX + 1,
{
    ((addr + (PAGE_SIZE - 1)) / PAGE_SIZE) * PAGE_SIZE
}

/// What the pages of a heap are mapped with.
fn heap_permission_of() -> (perm: MapPermission)
    ensures
        perm == heap_permission(),
{
    MapPermission { readable: true, writable: true, executable: false }
}

} // verus!
