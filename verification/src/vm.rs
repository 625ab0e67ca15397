use vstd::prelude::*;
use crate::pool::TaskStatus;
use crate::text::{decimal, push_decimal};
use vstd::multiset::Multiset;

verus! {

/// The program that starts and reverts the virtual machines.
pub const CMD_PATH: &'static str = "C:\\Program Files (x86)\\VMware\\VMware Workstation\\vmrun.exe";

/// How many virtual machines the initial pool holds.
pub const VM_COUNT: u64 = 25;

/// The last address byte of machine `i` is `IP_BASE + i`.
pub const IP_BASE: u64 = 128;

/// A virtual machine as the library sees it.
pub struct VmView {
    pub name: Seq<char>,
    pub vmx_path: Seq<char>,
    pub ip: Seq<char>,
}

/// A virtual machine: its name, the path of its configuration and its address.
pub struct Vm {
    vm_name: String,
    vmx_path: String,
    ip: String,
}

impl View for Vm {
    type V = VmView;

    closed spec fn view(&self) -> VmView {
        VmView { name: self.vm_name@, vmx_path: self.vmx_path@, ip: self.ip@ }
    }
}

/// Machine `i` (counted from 1) of the initial pool.
pub open spec fn initial_vm(i: nat) -> VmView {
    VmView {
        name: "ebs"@ + decimal(i),
        vmx_path: "D:\\ebs"@ + decimal(i) + "\\ebs.vmx"@,
        ip: "192.168.145."@ + decimal((IP_BASE + i) as nat),
    }
}

/// The machines that are free, the last one handed out first.
pub struct VmPool {
    vms: Vec<Vm>,
}

impl View for VmPool {
    type V = Seq<VmView>;

    closed spec fn view(&self) -> Seq<VmView> {
        self.vms@.map_values(|v: Vm| v@)
    }
}

impl Vm {
    fn initial(i: u64) -> (vm: Vm)
        requires
            1 <= i <= VM_COUNT,
        ensures
            vm@ == initial_vm(i as nat),
    {
        let mut vm_name = String::from_str("ebs");
        push_decimal(&mut vm_name, i);
        let mut vmx_path = String::from_str("D:\\ebs");
        push_decimal(&mut vmx_path, i);
        vmx_path.append("\\ebs.vmx");
        let mut ip = String::from_str("192.168.145.");
        push_decimal(&mut ip, IP_BASE + i);
        Vm { vm_name, vmx_path, ip }
    }

    /// The machine's name.
    pub fn name(&self) -> (s: String)
        ensures
            s@ == self@.name,
    {
        self.vm_name.clone()
    }

    /// The path of the machine's configuration.
    pub fn vmx_path(&self) -> (s: String)
        ensures
            s@ == self@.vmx_path,
    {
        self.vmx_path.clone()
    }

    /// The machine's address.
    pub fn ip(&self) -> (s: String)
        ensures
            s@ == self@.ip,
    {
        self.ip.clone()
    }
}

impl VmPool {
    /// The initial pool: machines 1 to `VM_COUNT`, in that order.
    pub fn initial() -> (pool: VmPool)
        ensures
            pool@.len() == VM_COUNT,
            forall|k: int| 0 <= k < VM_COUNT ==> #[trigger] pool@[k] == initial_vm((k + 1) as nat),
    {
        let mut vms: Vec<Vm> = Vec::new();
        let mut i: u64 = 1;
        while i <= VM_COUNT
            invariant
                1 <= i <= VM_COUNT + 1,
                vms@.len() == i - 1,
                forall|k: int| 0 <= k < vms@.len() ==> #[trigger] vms@[k]@ == initial_vm((k + 1) as nat),
            decreases VM_COUNT + 1 - i,
        {
            vms.push(Vm::initial(i));
            i = i + 1;
        }
        VmPool { vms }
    }

    /// Free machines.
    pub fn len(&self) -> (n: usize)
        ensures
            n == self@.len(),
    {
        self.vms.len()
    }

    /// Takes the last free machine out of the pool.
    pub fn take(&mut self) -> (vm: Option<Vm>)
        ensures
            old(self)@.len() == 0 ==> vm is None && final(self)@ == old(self)@,
            old(self)@.len() > 0 ==> (vm matches Some(v) && v@ == old(self)@.last()
                && final(self)@ == old(self)@.drop_last()),
    {
        let vm = self.vms.pop();
        proof {
            if old(self)@.len() > 0 {
                assert(self@ =~= old(self)@.drop_last());
            }
        }
        vm
    }

    /// Gives a machine back to the pool.
    pub fn give_back(&mut self, vm: Vm)
        ensures
            final(self)@ == old(self)@.push(vm@),
    {
        self.vms.push(vm);
        assert(self@ =~= old(self)@.push(vm@));
    }
}

/// A task as the library sees it: the machine it holds, if any, and its status.
pub struct VmTaskView {
    pub vm: Option<VmView>,
    pub status: TaskStatus,
}

/// A challenge instance running in one virtual machine.
pub struct VmTask {
    vm: Option<Vm>,
    status: TaskStatus,
}

impl View for VmTask {
    type V = VmTaskView;

    closed spec fn view(&self) -> VmTaskView {
        VmTaskView {
            vm: match self.vm {
                Some(v) => Some(v@),
                None => None,
            },
            status: self.status,
        }
    }
}

/// The arguments of the program for `verb` on the machine with configuration
/// `vmx_path`.
pub open spec fn vmrun_args(verb: Seq<char>, vmx_path: Seq<char>) -> Seq<Seq<char>> {
    seq!["-T"@, "ws"@, verb, vmx_path]
}

impl VmTask {
    /// A pending task on the last free machine of `pool`.
    pub fn new(pool: &mut VmPool) -> (task: VmTask)
        requires
            old(pool)@.len() > 0,
        ensures
            task@.vm == Some(old(pool)@.last()),
            task@.status == TaskStatus::PENDING,
            final(pool)@ == old(pool)@.drop_last(),
    {
        let vm = pool.take();
        VmTask { vm, status: TaskStatus::PENDING }
    }

    /// Whether the task holds a machine.
    pub fn has_vm(&self) -> (b: bool)
        ensures
            b == self@.vm is Some,
    {
        self.vm.is_some()
    }

    /// The task's status.
    pub fn task_status(&self) -> (s: TaskStatus)
        ensures
            s == self@.status,
    {
        self.status
    }

    /// The address of the task's machine.
    pub fn get_ip(&self) -> (ip: String)
        requires
            self@.vm is Some,
        ensures
            ip@ == self@.vm->0.ip,
    {
        self.vm.as_ref().unwrap().ip.clone()
    }

    /// The task starts: it is marked as starting, and the arguments of the
    /// program that starts its machine are returned.
    pub fn begin_spawn(&mut self) -> (args: Vec<String>)
        requires
            old(self)@.vm is Some,
        ensures
            final(self)@ == (VmTaskView { status: TaskStatus::STARTING, ..old(self)@ }),
            args@.map_values(|s: String| s@) == vmrun_args("start"@, old(self)@.vm->0.vmx_path),
    {
        self.status = TaskStatus::STARTING;
        let mut args: Vec<String> = Vec::new();
        args.push(String::from_str("-T"));
        args.push(String::from_str("ws"));
        args.push(String::from_str("start"));
        args.push(self.vm.as_ref().unwrap().vmx_path.clone());
        assert(args@.map_values(|s: String| s@) =~= vmrun_args("start"@, old(self)@.vm->0.vmx_path));
        args
    }

    /// The machine was started (whatever the program reported): the task runs.
    pub fn finish_spawn(&mut self)
        ensures
            final(self)@ == (VmTaskView { status: TaskStatus::RUNNING, ..old(self)@ }),
    {
        self.status = TaskStatus::RUNNING;
    }

    /// The task stops: it is marked as stopping, and the arguments of the
    /// program that reverts its machine to its snapshot are returned.
    pub fn begin_shutdown(&mut self) -> (args: Vec<String>)
        requires
            old(self)@.vm is Some,
        ensures
            final(self)@ == (VmTaskView { status: TaskStatus::STOPPING, ..old(self)@ }),
            args@.map_values(|s: String| s@) == vmrun_args("revertToSnapshot"@, old(self)@.vm->0.vmx_path).push(
                "snapshoot1"@,
            ),
    {
        self.status = TaskStatus::STOPPING;
        let mut args: Vec<String> = Vec::new();
        args.push(String::from_str("-T"));
        args.push(String::from_str("ws"));
        args.push(String::from_str("revertToSnapshot"));
        args.push(self.vm.as_ref().unwrap().vmx_path.clone());
        args.push(String::from_str("snapshoot1"));
        assert(args@.map_values(|s: String| s@) =~= vmrun_args("revertToSnapshot"@, old(self)@.vm->0.vmx_path).push(
            "snapshoot1"@,
        ));
        args
    }

    /// The machine was reverted: the task is over and its machine goes back to
    /// the pool.
    pub fn finish_shutdown(&mut self, pool: &mut VmPool)
        requires
            old(self)@.vm is Some,
        ensures
            final(self)@ == (VmTaskView { vm: None, status: TaskStatus::TERMINAL }),
            final(pool)@ == old(pool)@.push(old(self)@.vm->0),
    {
        self.status = TaskStatus::TERMINAL;
        let vm = self.vm.take().unwrap();
        pool.give_back(vm);
    }
}

/// The machines of the initial pool have pairwise different names,
/// configuration paths and addresses.
pub proof fn lemma_initial_vms_distinct(i: nat, j: nat)
    requires
        i != j,
    ensures
        initial_vm(i).name != initial_vm(j).name,
        initial_vm(i).ip != initial_vm(j).ip,
        initial_vm(i).vmx_path != initial_vm(j).vmx_path,
{
    let name_prefix = "ebs"@;
    let path_prefix = "D:\\ebs"@;
    let ip_prefix = "192.168.145."@;
    let (di, dj) = (decimal(i), decimal(j));
    crate::text::lemma_decimal_injective(i, j);
    crate::text::lemma_decimal_injective((IP_BASE + i) as nat, (IP_BASE + j) as nat);
    if initial_vm(i).name == initial_vm(j).name {
        assert((name_prefix + di).subrange(name_prefix.len() as int, (name_prefix + di).len() as int) =~= di);
        assert((name_prefix + dj).subrange(name_prefix.len() as int, (name_prefix + dj).len() as int) =~= dj);
    }
    if initial_vm(i).ip == initial_vm(j).ip {
        let a = decimal((IP_BASE + i) as nat);
        let b = decimal((IP_BASE + j) as nat);
        assert((ip_prefix + a).subrange(ip_prefix.len() as int, (ip_prefix + a).len() as int) =~= a);
        assert((ip_prefix + b).subrange(ip_prefix.len() as int, (ip_prefix + b).len() as int) =~= b);
    }
    if initial_vm(i).vmx_path == initial_vm(j).vmx_path {
        let suffix = "\\ebs.vmx"@;
        let pi = path_prefix + di + suffix;
        let pj = path_prefix + dj + suffix;
        assert(pi.subrange(path_prefix.len() as int, pi.len() - suffix.len()) =~= di);
        assert(pj.subrange(path_prefix.len() as int, pj.len() - suffix.len()) =~= dj);
    }
}

/// A machine taken from the pool for a task and given back when the task is
/// over leaves the pool as it was.
pub proof fn lemma_vm_pool_round_trip(pool: Seq<VmView>)
    requires
        pool.len() > 0,
    ensures
        pool.drop_last().push(pool.last()) == pool,
{
    assert(pool.drop_last().push(pool.last()) =~= pool);
}

/// A step in the life of the machines: a task is made on the last free
/// machine (`VmTask::new`), or the task at this index is shut down and gives
/// its machine back (`VmTask::finish_shutdown`).
pub enum VmEvent {
    New,
    Shutdown(usize),
}

/// The free machines, and the machine each task made so far holds, if any.
pub struct VmState {
    pub pool: Seq<VmView>,
    pub tasks: Seq<Option<VmView>>,
}

/// The machines the tasks hold.
pub open spec fn held(tasks: Seq<Option<VmView>>) -> Multiset<VmView>
    decreases tasks.len(),
{
    if tasks.len() == 0 {
        Multiset::empty()
    } else {
        match tasks.last() {
            Some(v) => held(tasks.drop_last()).insert(v),
            None => held(tasks.drop_last()),
        }
    }
}

/// Whether the step can happen: a task is made only while a machine is free,
/// and only a task holding a machine is shut down.
pub open spec fn vm_step_allowed(st: VmState, e: VmEvent) -> bool {
    match e {
        VmEvent::New => st.pool.len() > 0,
        VmEvent::Shutdown(i) => i < st.tasks.len() && st.tasks[i as int] is Some,
    }
}

/// The machines after one step, as the contracts of `VmTask::new` and
/// `VmTask::finish_shutdown` give them.
pub open spec fn vm_step(st: VmState, e: VmEvent) -> VmState {
    match e {
        VmEvent::New => VmState { pool: st.pool.drop_last(), tasks: st.tasks.push(Some(st.pool.last())) },
        VmEvent::Shutdown(i) => VmState {
            pool: st.pool.push(st.tasks[i as int]->0),
            tasks: st.tasks.update(i as int, None),
        },
    }
}

/// The machines after a run of steps from the free machines `pool` and no
/// task, the first step first; `None` when a step could not happen.
pub open spec fn vm_run(pool: Seq<VmView>, events: Seq<VmEvent>) -> Option<VmState>
    decreases events.len(),
{
    if events.len() == 0 {
        Some(VmState { pool, tasks: Seq::empty() })
    } else {
        match vm_run(pool, events.drop_last()) {
            Some(st) => if vm_step_allowed(st, events.last()) {
                Some(vm_step(st, events.last()))
            } else {
                None
            },
            None => None,
        }
    }
}

proof fn lemma_held_release(tasks: Seq<Option<VmView>>, i: int)
    requires
        0 <= i < tasks.len(),
        tasks[i] is Some,
    ensures
        held(tasks) == held(tasks.update(i, None)).insert(tasks[i]->0),
    decreases tasks.len(),
{
    broadcast use vstd::multiset::group_multiset_axioms;

    let u = tasks.update(i, None);
    if i == tasks.len() - 1 {
        assert(u.drop_last() =~= tasks.drop_last());
    } else {
        lemma_held_release(tasks.drop_last(), i);
        assert(u.drop_last() =~= tasks.drop_last().update(i, None));
        assert(u.last() == tasks.last());
        match tasks.last() {
            Some(v) => {
                assert(held(u) =~= held(tasks.drop_last().update(i, None)).insert(v));
                assert(held(tasks) =~= held(u).insert(tasks[i]->0));
            },
            None => {},
        }
    }
}

/// Machines are conserved: over any run of allowed steps, each machine of the
/// starting pool is either free or held by exactly one task, so the free
/// machines and the tasks holding one add up to the starting count (for the
/// initial pool, `VM_COUNT`).
pub proof fn lemma_vm_run_conserves_machines(pool: Seq<VmView>, events: Seq<VmEvent>)
    requires
        vm_run(pool, events) is Some,
    ensures
        vm_run(pool, events)->0.pool.to_multiset().add(held(vm_run(pool, events)->0.tasks)) == pool.to_multiset(),
        vm_run(pool, events)->0.pool.len() + held(vm_run(pool, events)->0.tasks).len() == pool.len(),
    decreases events.len(),
{
    broadcast use vstd::seq_lib::group_to_multiset_ensures;
    broadcast use vstd::multiset::group_multiset_axioms;

    if events.len() == 0 {
        assert(pool.to_multiset().add(held(Seq::<Option<VmView>>::empty())) =~= pool.to_multiset());
    } else {
        let prefix = events.drop_last();
        lemma_vm_run_conserves_machines(pool, prefix);
        let st = vm_run(pool, prefix)->0;
        let after = vm_run(pool, events)->0;
        match events.last() {
            VmEvent::New => {
                let v = st.pool.last();
                assert(st.pool.drop_last().push(v) =~= st.pool);
                assert(after.tasks.drop_last() =~= st.tasks);
                assert(held(after.tasks) == held(st.tasks).insert(v));
                assert(after.pool.to_multiset().add(held(after.tasks)) =~= st.pool.to_multiset().add(
                    held(st.tasks),
                ));
            },
            VmEvent::Shutdown(i) => {
                lemma_held_release(st.tasks, i as int);
                assert(after.pool.to_multiset().add(held(after.tasks)) =~= st.pool.to_multiset().add(
                    held(st.tasks),
                ));
            },
        }
    }
}

/// Started from the initial pool, the free machines and the tasks holding one
/// always number `VM_COUNT`.
pub proof fn lemma_vm_count_conserved(initial: Seq<VmView>, events: Seq<VmEvent>)
    requires
        initial.len() == VM_COUNT,
        vm_run(initial, events) is Some,
    ensures
        vm_run(initial, events)->0.pool.len() + held(vm_run(initial, events)->0.tasks).len() == VM_COUNT,
{
    lemma_vm_run_conserves_machines(initial, events);
}

} // verus!
