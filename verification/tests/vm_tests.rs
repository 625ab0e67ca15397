use chall_gate::pool::TaskStatus;
use chall_gate::vm::{VmPool, VmTask, CMD_PATH, VM_COUNT};

#[test]
fn vm_initial_pool_layout() {
    let mut pool = VmPool::initial();
    assert_eq!(pool.len() as u64, VM_COUNT);
    let last = pool.take().unwrap();
    assert_eq!(last.name(), "ebs25");
    assert_eq!(last.vmx_path(), "D:\\ebs25\\ebs.vmx");
    assert_eq!(last.ip(), "192.168.145.153");
    for _ in 0..23 {
        pool.take();
    }
    let first = pool.take().unwrap();
    assert_eq!(first.name(), "ebs1");
    assert_eq!(first.ip(), "192.168.145.129");
    assert!(pool.take().is_none());
}

#[test]
fn vm_task_lifecycle_returns_machine() {
    let mut pool = VmPool::initial();
    let mut task = VmTask::new(&mut pool);
    assert_eq!(pool.len(), 24);
    assert_eq!(task.task_status(), TaskStatus::PENDING);
    assert_eq!(task.get_ip(), "192.168.145.153");
    let args = task.begin_spawn();
    assert_eq!(args, vec!["-T", "ws", "start", "D:\\ebs25\\ebs.vmx"]);
    assert_eq!(task.task_status(), TaskStatus::STARTING);
    task.finish_spawn();
    assert_eq!(task.task_status(), TaskStatus::RUNNING);
    let args = task.begin_shutdown();
    assert_eq!(args, vec!["-T", "ws", "revertToSnapshot", "D:\\ebs25\\ebs.vmx", "snapshoot1"]);
    assert_eq!(task.task_status(), TaskStatus::STOPPING);
    task.finish_shutdown(&mut pool);
    assert_eq!(task.task_status(), TaskStatus::TERMINAL);
    assert!(!task.has_vm());
    assert_eq!(pool.len(), 25);
    // the machine given back is the next one handed out
    let again = VmTask::new(&mut pool);
    assert_eq!(again.get_ip(), "192.168.145.153");
}

#[test]
fn vm_initial_pool_addresses_are_distinct() {
    let mut pool = VmPool::initial();
    let mut ips = Vec::new();
    while let Some(vm) = pool.take() {
        ips.push(vm.ip());
    }
    let mut sorted = ips.clone();
    sorted.sort();
    sorted.dedup();
    assert_eq!(sorted.len(), ips.len());
}

#[test]
fn vm_command_path() {
    assert!(CMD_PATH.ends_with("vmrun.exe"));
}

#[test]
fn vm_machines_are_conserved() {
    let mut pool = VmPool::initial();
    let mut tasks = Vec::new();
    for _ in 0..5 {
        tasks.push(VmTask::new(&mut pool));
    }
    let holding = |ts: &Vec<VmTask>| ts.iter().filter(|t| t.has_vm()).count();
    assert_eq!(pool.len() + holding(&tasks), 25);
    tasks[1].finish_shutdown(&mut pool);
    tasks[3].finish_shutdown(&mut pool);
    assert_eq!(pool.len() + holding(&tasks), 25);
    tasks.push(VmTask::new(&mut pool));
    assert_eq!(pool.len() + holding(&tasks), 25);
}
