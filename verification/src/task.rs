//! The task control block: the state the kernel keeps for one task, and the
//! transitions between the states of a task.

use vstd::prelude::*;

verus! {

/// Number of system calls that are counted per task.
pub const MAX_SYSCALL_NUM: usize = 500;

/// Bytes in one page of an address space.
pub const PAGE_SIZE: usize = 4096;

/// The page that holds address `va`.
pub open spec fn page_floor(va: int) -> int {
    va / (PAGE_SIZE as int)
}

/// The first page that starts at or after address `va`.
pub open spec fn page_ceil(va: int) -> int {
    (va + PAGE_SIZE - 1) / (PAGE_SIZE as int)
}

/// The page that holds address `va`.
pub fn floor_page(va: usize) -> (vpn: usize)
    ensures
        vpn == page_floor(va as int),
{
    va / PAGE_SIZE
}

/// The first page that starts at or after address `va`.
pub fn ceil_page(va: usize) -> (vpn: usize)
    ensures
        vpn == page_ceil(va as int),
{
    if va % PAGE_SIZE == 0 {
        va / PAGE_SIZE
    } else {
        va / PAGE_SIZE + 1
    }
}

/// The state of a task.
#[derive(Copy, Clone, Debug, PartialEq, Eq, Structural)]
pub enum TaskStatus {
    /// Not set up yet.
    UnInit,
    /// Waiting for the processor.
    Ready,
    /// On the processor.
    Running,
    /// Finished.
    Exited,
}

/// The registers saved when a task is switched out.
#[derive(Copy, Clone, Debug, PartialEq, Eq)]
pub struct TaskContext {
    /// Return address.
    pub ra: usize,
    /// Stack pointer.
    pub sp: usize,
    /// Callee-saved registers.
    pub s: [usize; 12],
}

impl TaskContext {
    /// A context of zeros.
    pub fn zero_init() -> (cx: TaskContext)
        ensures
            cx.ra == 0,
            cx.sp == 0,
            forall|i: int| 0 <= i < 12 ==> cx.s@[i] == 0,
    {
        TaskContext { ra: 0, sp: 0, s: [0usize; 12] }
    }

    /// The context of a task that starts by returning from a trap: it
    /// resumes at address `trap_return` on the kernel stack that ends at
    /// `kstack_ptr`.
    pub fn goto_trap_return(trap_return: usize, kstack_ptr: usize) -> (cx: TaskContext)
        ensures
            cx.ra == trap_return,
            cx.sp == kstack_ptr,
            forall|i: int| 0 <= i < 12 ==> cx.s@[i] == 0,
    {
        TaskContext { ra: trap_return, sp: kstack_ptr, s: [0usize; 12] }
    }
}

/// The number of a page of physical memory.
#[derive(Copy, Clone, Debug, PartialEq, Eq, Structural)]
pub struct PhysPageNum(pub usize);

/// One area of an address space: the pages from `start_vpn` up to, not
/// including, `end_vpn`.
#[derive(Copy, Clone, Debug, PartialEq, Eq, Structural)]
pub struct MapArea {
    /// The first page of the area.
    pub start_vpn: usize,
    /// The page after the last page of the area.
    pub end_vpn: usize,
}

/// Slot `i` is the first area of `areas` that starts at page `start_vpn`.
pub open spec fn is_first_area(areas: Seq<MapArea>, start_vpn: int, i: int) -> bool {
    &&& 0 <= i < areas.len()
    &&& areas[i].start_vpn == start_vpn
    &&& forall|k: int| 0 <= k < i ==> (#[trigger] areas[k]).start_vpn != start_vpn
}

/// Some area of `areas` starts at page `start_vpn`.
pub open spec fn has_area(areas: Seq<MapArea>, start_vpn: int) -> bool {
    exists|i: int| is_first_area(areas, start_vpn, i)
}

/// The position of the first area of `areas` that starts at page `start_vpn`.
pub open spec fn area_index(areas: Seq<MapArea>, start_vpn: int) -> int {
    choose|i: int| is_first_area(areas, start_vpn, i)
}

/// `areas` once the first area that starts at page `start_vpn` ends at page `end_vpn`.
pub open spec fn resized(areas: Seq<MapArea>, start_vpn: int, end_vpn: usize) -> Seq<MapArea> {
    let i = area_index(areas, start_vpn);
    areas.update(i, MapArea { start_vpn: areas[i].start_vpn, end_vpn })
}

/// The first area that starts at a page is unique.
pub proof fn lemma_first_area(areas: Seq<MapArea>, start_vpn: int, i: int)
    requires
        is_first_area(areas, start_vpn, i),
    ensures
        has_area(areas, start_vpn),
        area_index(areas, start_vpn) == i,
{
    let j = area_index(areas, start_vpn);
    assert(is_first_area(areas, start_vpn, j));
    if j < i {
        assert(areas[j].start_vpn != start_vpn);
    } else if i < j {
        assert(areas[i].start_vpn != start_vpn);
    }
}

/// The address space of a task as its control block sees it: the token that
/// selects it, and the pages of each of its areas. Mapping the pages is the
/// work of the kernel's memory manager.
pub struct MemorySet {
    token: usize,
    areas: Vec<MapArea>,
}

impl MemorySet {
    /// The token that selects the address space.
    pub closed spec fn spec_token(&self) -> usize {
        self.token
    }

    /// The areas of the address space, in the order they were added.
    pub closed spec fn view(&self) -> Seq<MapArea> {
        self.areas@
    }

    /// An address space without areas.
    pub fn new(token: usize) -> (set: MemorySet)
        ensures
            set.spec_token() == token,
            set@ == Seq::<MapArea>::empty(),
    {
        MemorySet { token, areas: Vec::new() }
    }

    /// Adds an area.
    pub fn push(&mut self, area: MapArea)
        ensures
            final(self)@ == old(self)@.push(area),
            final(self).spec_token() == old(self).spec_token(),
    {
        self.areas.push(area);
    }

    /// The token that selects the address space.
    pub fn token(&self) -> (token: usize)
        ensures
            token == self.spec_token(),
    {
        self.token
    }

    /// The position of the first area that starts at page `start_vpn`.
    fn find(&self, start_vpn: usize) -> (res: Option<usize>)
        ensures
            match res {
                Some(i) => is_first_area(self@, start_vpn as int, i as int) && has_area(
                    self@,
                    start_vpn as int,
                ) && area_index(self@, start_vpn as int) == i,
                None => !has_area(self@, start_vpn as int),
            },
    {
        let mut i: usize = 0;
        while i < self.areas.len()
            invariant
                i <= self.areas@.len(),
                forall|k: int| 0 <= k < i ==> (#[trigger] self.areas@[k]).start_vpn != start_vpn,
            decreases self.areas@.len() - i,
        {
            if self.areas[i].start_vpn == start_vpn {
                proof {
                    lemma_first_area(self@, start_vpn as int, i as int);
                }
                return Some(i);
            }
            i = i + 1;
        }
        None
    }

    /// Makes the first area that starts at the page of address `start` end
    /// at the page boundary at or after address `new_end`, for a heap that
    /// gives pages up. Says whether there is such an area.
    pub fn shrink_to(&mut self, start: usize, new_end: usize) -> (res: bool)
        ensures
            res == has_area(old(self)@, page_floor(start as int)),
            final(self).spec_token() == old(self).spec_token(),
            final(self)@ == if res {
                resized(old(self)@, page_floor(start as int), page_ceil(new_end as int) as usize)
            } else {
                old(self)@
            },
    {
        self.resize(floor_page(start), ceil_page(new_end))
    }

    /// Makes the first area that starts at the page of address `start` end
    /// at the page boundary at or after address `new_end`, for a heap that
    /// takes pages in. Says whether there is such an area.
    pub fn append_to(&mut self, start: usize, new_end: usize) -> (res: bool)
        ensures
            res == has_area(old(self)@, page_floor(start as int)),
            final(self).spec_token() == old(self).spec_token(),
            final(self)@ == if res {
                resized(old(self)@, page_floor(start as int), page_ceil(new_end as int) as usize)
            } else {
                old(self)@
            },
    {
        self.resize(floor_page(start), ceil_page(new_end))
    }

    /// Makes the first area that starts at page `start_vpn` end at page `end_vpn`.
    fn resize(&mut self, start_vpn: usize, end_vpn: usize) -> (res: bool)
        ensures
            res == has_area(old(self)@, start_vpn as int),
            final(self).spec_token() == old(self).spec_token(),
            final(self)@ == if res {
                resized(old(self)@, start_vpn as int, end_vpn)
            } else {
                old(self)@
            },
    {
        match self.find(start_vpn) {
            Some(i) => {
                let area = self.areas[i];
                self.areas[i] = MapArea { start_vpn: area.start_vpn, end_vpn };
                true
            },
            None => false,
        }
    }

    /// The areas of the address space, in the order they were added.
    pub fn areas(&self) -> (areas: &Vec<MapArea>)
        ensures
            areas@ == self@,
    {
        &self.areas
    }
}

/// The control block of one task.
pub struct TaskControlBlock {
    /// The registers saved at the last switch.
    pub task_cx: TaskContext,
    /// The state of the task.
    pub task_status: TaskStatus,
    /// The time, in milliseconds, at which the task first ran; 0 before.
    pub start_time: usize,
    /// How often the task has made each system call.
    pub syscall_times: [u32; MAX_SYSCALL_NUM],
    /// The address space of the task.
    pub memory_set: MemorySet,
    /// The physical page that holds the trap context.
    pub trap_cx_ppn: PhysPageNum,
    /// The top address of the program as loaded.
    pub base_size: usize,
    /// The bottom of the heap.
    pub heap_bottom: usize,
    /// The program break: the top of the heap.
    pub program_brk: usize,
}

impl TaskControlBlock {
    /// The heap is in order: the break is not below the bottom of the heap,
    /// and the heap area, where the address space has one, ends at the page
    /// boundary of the break.
    pub open spec fn wf(&self) -> bool {
        &&& self.heap_bottom <= self.program_brk
        &&& has_area(self.memory_set@, page_floor(self.heap_bottom as int))
            ==> self.memory_set@[area_index(
            self.memory_set@,
            page_floor(self.heap_bottom as int),
        )].end_vpn == page_ceil(self.program_brk as int)
    }

    /// The trap context lives in physical page `trap_cx_ppn`.
    pub fn trap_cx_ppn(&self) -> (ppn: PhysPageNum)
        ensures
            ppn == self.trap_cx_ppn,
    {
        self.trap_cx_ppn
    }

    /// The token of the address space of the task.
    pub fn get_user_token(&self) -> (token: usize)
        ensures
            token == self.memory_set.spec_token(),
    {
        self.memory_set.token()
    }

    /// The control block of a task that is ready to run for the first time,
    /// in address space `memory_set`, with its stack top, and so its empty
    /// heap, at `user_sp`.
    pub fn new(
        memory_set: MemorySet,
        user_sp: usize,
        trap_cx_ppn: PhysPageNum,
        task_cx: TaskContext,
    ) -> (tcb: TaskControlBlock)
        ensures
            tcb.task_status == TaskStatus::Ready,
            tcb.task_cx == task_cx,
            tcb.start_time == 0,
            forall|i: int| 0 <= i < MAX_SYSCALL_NUM ==> tcb.syscall_times@[i] == 0,
            tcb.memory_set == memory_set,
            tcb.trap_cx_ppn == trap_cx_ppn,
            tcb.base_size == user_sp,
            tcb.heap_bottom == user_sp,
            tcb.program_brk == user_sp,
    {
        TaskControlBlock {
            task_status: TaskStatus::Ready,
            task_cx,
            start_time: 0,
            syscall_times: [0u32; MAX_SYSCALL_NUM],
            memory_set,
            trap_cx_ppn,
            base_size: user_sp,
            heap_bottom: user_sp,
            program_brk: user_sp,
        }
    }

    /// The break after a change by `size` bytes, where the heap can take it:
    /// not below the bottom of the heap, not beyond the address range, and
    /// only where the address space has a heap area.
    pub open spec fn brk_after(&self, size: i32) -> Option<usize> {
        let new_brk = self.program_brk + size;
        if new_brk < self.heap_bottom || new_brk > usize::MAX || !has_area(
            self.memory_set@,
            page_floor(self.heap_bottom as int),
        ) {
            None
        } else {
            Some(new_brk as usize)
        }
    }

    /// Moves the program break by `size` bytes and returns the old break,
    /// or returns `None` and changes nothing where the heap cannot take the
    /// change. A heap that is in order stays in order.
    pub fn change_program_brk(&mut self, size: i32) -> (res: Option<usize>)
        ensures
            old(self).wf() ==> final(self).wf(),
            match old(self).brk_after(size) {
                Some(new_brk) => {
                    &&& res == Some(old(self).program_brk)
                    &&& final(self).program_brk == new_brk
                    &&& final(self).memory_set@ == resized(
                        old(self).memory_set@,
                        page_floor(old(self).heap_bottom as int),
                        page_ceil(new_brk as int) as usize,
                    )
                },
                None => res is None && final(self).program_brk == old(self).program_brk && final(self).memory_set@ == old(self).memory_set@,
            },
            final(self).memory_set.spec_token() == old(self).memory_set.spec_token(),
            final(self).heap_bottom == old(self).heap_bottom,
            final(self).base_size == old(self).base_size,
            final(self).task_status == old(self).task_status,
            final(self).task_cx == old(self).task_cx,
            final(self).start_time == old(self).start_time,
            final(self).syscall_times == old(self).syscall_times,
            final(self).trap_cx_ppn == old(self).trap_cx_ppn,
    {
        let old_break = self.program_brk;
        let new_brk = self.program_brk as i128 + size as i128;
        if new_brk < self.heap_bottom as i128 || new_brk > usize::MAX as i128 {
            return None;
        }
        let new_brk = new_brk as usize;
        let ghost areas = self.memory_set@;
        let ghost start = page_floor(self.heap_bottom as int);
        let result = if size < 0 {
            self.memory_set.shrink_to(self.heap_bottom, new_brk)
        } else {
            self.memory_set.append_to(self.heap_bottom, new_brk)
        };
        if result {
            self.program_brk = new_brk;
            proof {
                let i = area_index(areas, start);
                assert(is_first_area(areas, start, i));
                assert(is_first_area(self.memory_set@, start, i)) by {
                    assert forall|k: int| 0 <= k < i implies (#[trigger] self.memory_set@[k]).start_vpn
                        != start by {
                        assert(self.memory_set@[k] == areas[k]);
                    }
                }
                lemma_first_area(self.memory_set@, start, i);
            }
            Some(old_break)
        } else {
            None
        }
    }

    /// Puts a ready task on the processor. The first time, `now_ms`, the
    /// current time in milliseconds, becomes its start time. A task that is
    /// not ready is refused and stays as it is.
    pub fn try_turn_to_running(&mut self, now_ms: usize) -> (res: Result<(), &'static str>)
        ensures
            res is Ok <==> old(self).task_status == TaskStatus::Ready,
            match res {
                Ok(()) => {
                    &&& final(self).task_status == TaskStatus::Running
                    &&& final(self).start_time == if old(self).start_time == 0 {
                        now_ms
                    } else {
                        old(self).start_time
                    }
                },
                Err(msg) => {
                    &&& msg@ == "TaskControlBlock::turn_to_running: not a Ready task"@
                    &&& final(self).task_status == old(self).task_status
                    &&& final(self).start_time == old(self).start_time
                },
            },
            final(self).task_cx == old(self).task_cx,
            final(self).syscall_times == old(self).syscall_times,
            final(self).memory_set == old(self).memory_set,
            final(self).trap_cx_ppn == old(self).trap_cx_ppn,
            final(self).base_size == old(self).base_size,
            final(self).heap_bottom == old(self).heap_bottom,
            final(self).program_brk == old(self).program_brk,
    {
        if self.task_status != TaskStatus::Ready {
            return Err("TaskControlBlock::turn_to_running: not a Ready task");
        }
        self.task_status = TaskStatus::Running;
        if self.start_time == 0 {
            self.start_time = now_ms;
        }
        Ok(())
    }

    /// Takes a running task off the processor. A task that is not running
    /// is refused and stays as it is.
    pub fn try_turn_to_ready(&mut self) -> (res: Result<(), &'static str>)
        ensures
            res is Ok <==> old(self).task_status == TaskStatus::Running,
            match res {
                Ok(()) => final(self).task_status == TaskStatus::Ready,
                Err(msg) => {
                    &&& msg@ == "TaskControlBlock::turn_to_ready: not a Running task"@
                    &&& final(self).task_status == old(self).task_status
                },
            },
            final(self).task_cx == old(self).task_cx,
            final(self).start_time == old(self).start_time,
            final(self).syscall_times == old(self).syscall_times,
            final(self).memory_set == old(self).memory_set,
            final(self).trap_cx_ppn == old(self).trap_cx_ppn,
            final(self).base_size == old(self).base_size,
            final(self).heap_bottom == old(self).heap_bottom,
            final(self).program_brk == old(self).program_brk,
    {
        if self.task_status != TaskStatus::Running {
            return Err("TaskControlBlock::turn_to_ready: not a Running task");
        }
        self.task_status = TaskStatus::Ready;
        Ok(())
    }

    /// Marks the task finished, whatever its state.
    pub fn turn_to_exited(&mut self)
        ensures
            final(self).task_status == TaskStatus::Exited,
            final(self).task_cx == old(self).task_cx,
            final(self).start_time == old(self).start_time,
            final(self).syscall_times == old(self).syscall_times,
            final(self).memory_set == old(self).memory_set,
            final(self).trap_cx_ppn == old(self).trap_cx_ppn,
            final(self).base_size == old(self).base_size,
            final(self).heap_bottom == old(self).heap_bottom,
            final(self).program_brk == old(self).program_brk,
    {
        self.task_status = TaskStatus::Exited;
    }

    /// The registers saved at the last switch.
    pub fn cx(&self) -> (cx: &TaskContext)
        ensures
            *cx == self.task_cx,
    {
        &self.task_cx
    }

    /// Whether the task waits for the processor.
    pub fn is_ready(&self) -> (res: bool)
        ensures
            res == (self.task_status == TaskStatus::Ready),
    {
        self.task_status == TaskStatus::Ready
    }

    /// The state of the task.
    pub fn status(&self) -> (status: TaskStatus)
        ensures
            status == self.task_status,
    {
        self.task_status
    }

    /// Counts one more call of system call `syscall_id`.
    pub fn sys_call_inc(&mut self, syscall_id: usize)
        requires
            syscall_id < MAX_SYSCALL_NUM,
            old(self).syscall_times@[syscall_id as int] < u32::MAX,
        ensures
            final(self).syscall_times@ == old(self).syscall_times@.update(
                syscall_id as int,
                (old(self).syscall_times@[syscall_id as int] + 1) as u32,
            ),
            final(self).task_status == old(self).task_status,
            final(self).task_cx == old(self).task_cx,
            final(self).start_time == old(self).start_time,
            final(self).memory_set == old(self).memory_set,
            final(self).trap_cx_ppn == old(self).trap_cx_ppn,
            final(self).base_size == old(self).base_size,
            final(self).heap_bottom == old(self).heap_bottom,
            final(self).program_brk == old(self).program_brk,
    {
        self.syscall_times[syscall_id] = self.syscall_times[syscall_id] + 1;
    }
}

} // verus!
