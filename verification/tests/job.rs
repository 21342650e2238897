use dusk::job::{
    check_exit_status, echo_buffer, echo_buffer_job, Buffer, Child, Cleanup, CollectStep, CommandRef, Init, Job,
    JobError, PipeStep, StdinFrom, System, SystemItem, Thread,
};

fn cmd(i: usize) -> CommandRef {
    CommandRef::External(i)
}

#[test]
fn buffer_bytes_and_strings() {
    let b = Buffer::Bytes(cmd(0), b"hi".to_vec());
    assert_eq!(b.as_bytes(), b"hi");
    assert_eq!(b.as_str().err(), Some(JobError::NotString));
    let s = Buffer::String(cmd(0), "h\u{e9}".to_string());
    assert_eq!(s.as_bytes(), "h\u{e9}".as_bytes());
    assert_eq!(s.take_bytes(), vec![b'h', 0xc3, 0xa9]);
    assert_eq!(Buffer::Null.as_bytes(), b"");
}

#[test]
fn make_string_converts_utf8_bytes() {
    let mut b = Buffer::Bytes(cmd(1), b"out\n".to_vec());
    assert_eq!(b.make_string().ok(), Some("out\n"));
    assert!(matches!(&b, Buffer::String(CommandRef::External(1), s) if s == "out\n"));
    // A string stays as it is.
    assert_eq!(b.make_string().ok(), Some("out\n"));
}

#[test]
fn make_string_failures() {
    let mut bad = Buffer::Bytes(cmd(2), vec![0xff, 0xfe]);
    assert_eq!(bad.make_string().err(), Some(JobError::Utf8));
    assert!(matches!(bad, Buffer::Null));
    let mut null = Buffer::Null;
    assert_eq!(null.make_string().err(), Some(JobError::NullString));
}

#[test]
fn feeding_inputs() {
    let mut job = Job::from_command(cmd(0));
    let mut bytes = Job::Buffer(Buffer::Bytes(cmd(1), b"abc".to_vec()));
    job.add_input_job(&mut bytes).ok().unwrap();
    // Collected bytes are echoed from a copy; the input stays.
    assert!(matches!(&bytes, Job::Buffer(Buffer::Bytes(_, b)) if b == b"abc"));
    let mut spec = Job::from_command(cmd(2));
    job.add_input_job(&mut spec).ok().unwrap();
    // A command is moved over.
    assert!(matches!(spec, Job::Null));
    let mut null = Job::Null;
    job.add_input_job(&mut null).ok().unwrap();
    match &job {
        Job::Spec(s) => {
            assert_eq!(s.cmd, cmd(0));
            assert_eq!(s.input.len(), 3);
            match &s.input[0] {
                Job::System(sys) => {
                    assert_eq!(sys.cmd, CommandRef::InternalPipe);
                    assert!(matches!(&sys.item, SystemItem::Buffer(b) if b == b"abc"));
                }
                other => panic!("{other:?}"),
            }
            assert!(matches!(&s.input[1], Job::Spec(s2) if s2.cmd == cmd(2)));
            assert!(matches!(&s.input[2], Job::Null));
        }
        other => panic!("{other:?}"),
    }
    let mut not_spec = Job::Null;
    let mut input = Job::from_command(cmd(3));
    assert_eq!(not_spec.add_input_job(&mut input).err(), Some(JobError::NotSpec));
    assert!(matches!(input, Job::Spec(_)));
}

#[test]
fn pipe_steps() {
    assert!(matches!(Job::Null.into_pipe_step(true), Err(JobError::NullPipe)));
    match Job::Buffer(Buffer::String(cmd(0), "x".to_string())).into_pipe_step(false) {
        Ok(PipeStep::Ready(sys)) => {
            assert_eq!(sys.cmd, CommandRef::InternalPipe);
            assert!(matches!(&sys.item, SystemItem::Buffer(b) if b == b"x"));
        }
        _ => panic!("expected an echo"),
    }
    assert!(matches!(Job::from_command(cmd(4)).into_pipe_step(true), Ok(PipeStep::Spawn(s)) if s.cmd == cmd(4)));
}

#[test]
fn systems_and_cleanups() {
    let sys = System {
        cmd: cmd(5),
        item: SystemItem::Child(Child(7)),
        cleanup: vec![Cleanup::Thread(Thread(1))],
        init: vec![Init { input: b"in".to_vec() }],
    };
    let (init, cleanup) = sys.into_init_cleanup();
    assert_eq!(init.len(), 1);
    assert_eq!(cleanup.len(), 2);
    assert!(matches!(cleanup[0], Cleanup::Thread(Thread(1))));
    assert!(matches!(cleanup[1], Cleanup::Child(Child(7), CommandRef::External(5))));

    let echo = echo_buffer(Buffer::Bytes(cmd(6), b"zz".to_vec()), true);
    let (echo, from) = echo.input_connection();
    assert_eq!(from, StdinFrom::Piped);
    assert_eq!(echo.init.len(), 1);
    assert_eq!(echo.init[0].input, b"zz".to_vec());
    assert!(matches!(echo.collect_step(), CollectStep::Done(Buffer::Bytes(CommandRef::InternalPipe, b)) if b == b"zz"));

    let running = System { cmd: cmd(8), item: SystemItem::Child(Child(2)), cleanup: vec![], init: vec![] };
    let (running, from) = running.input_connection();
    assert_eq!(from, StdinFrom::ChildStdout(Child(2)));
    assert!(matches!(running.collect_step(), CollectStep::Wait { child: Child(2), cmd: CommandRef::External(8), .. }));

    assert!(matches!(echo_buffer_job(&vec![1, 2]), Job::System(_)));
}

#[test]
fn exit_status_and_reads() {
    assert!(check_exit_status(cmd(9), true).is_ok());
    assert_eq!(check_exit_status(cmd(9), false).err(), Some(JobError::Failed(cmd(9))));
    let job = Job::Buffer(Buffer::String(cmd(0), "ok".to_string()));
    assert_eq!(job.as_str().ok(), Some("ok"));
    assert_eq!(job.as_bytes().ok(), Some(&b"ok"[..]));
    assert_eq!(Job::Null.as_str().err(), Some(JobError::NotBuffer));
    assert_eq!(Job::Buffer(Buffer::Null).as_str().err(), Some(JobError::NotString));
}
