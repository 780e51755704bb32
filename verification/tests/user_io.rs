use shivacore::system::Pid;
use shivacore::user_io::{
    poll, FdFlags, FdTable, FdTarget, FileDescriptor, IoError, Pipe, PipeManager, PollEntry,
    PollEvent, UserIoManager, MAX_FDS, PIPE_BUF_SIZE, STDERR_FD, STDIN_FD, STDOUT_FD,
};

// --- FdFlags tests ---

#[test]
fn test_fd_flags_read_only() {
    let f = FdFlags::read_only();
    assert!(f.read);
    assert!(!f.write);
}

#[test]
fn test_fd_flags_write_only() {
    let f = FdFlags::write_only();
    assert!(!f.read);
    assert!(f.write);
}

#[test]
fn test_fd_flags_read_write() {
    let f = FdFlags::read_write();
    assert!(f.read);
    assert!(f.write);
}

#[test]
fn test_fd_flags_nonblock() {
    let f = FdFlags::read_write_nb();
    assert!(f.nonblock);
    assert!(!FdFlags::read_write().nonblock);
}

// --- FdTarget tests ---

#[test]
fn test_fd_target_eq() {
    let f1 = FdTarget::File { path: "test".into(), inode: 1 };
    let f2 = FdTarget::File { path: "test".into(), inode: 1 };
    assert_eq!(f1, f2);
    let f3 = FdTarget::File { path: "other".into(), inode: 2 };
    assert_ne!(f1, f3);
}

#[test]
fn test_fd_target_pipe_variants() {
    let r = FdTarget::PipeRead { pipe_id: 1 };
    let w = FdTarget::PipeWrite { pipe_id: 1 };
    assert_ne!(r, w);
}

// --- FileDescriptor tests ---

#[test]
fn test_fd_new() {
    let fd = FileDescriptor::new(3, FdTarget::Null, FdFlags::read_write());
    assert_eq!(fd.fd, 3);
    assert!(!fd.is_closed());
    assert!(fd.is_readable());
    assert!(fd.is_writable());
}

#[test]
fn test_fd_closed() {
    let mut fd = FileDescriptor::new(3, FdTarget::Null, FdFlags::read_write());
    fd.closed = true;
    assert!(fd.is_closed());
    assert!(!fd.is_readable());
    assert!(!fd.is_writable());
}

// --- FdTable tests ---

#[test]
fn test_fd_table_new() {
    let table = FdTable::new(Pid(1000));
    assert_eq!(table.pid, Pid(1000));
    // stdin/stdout/stderr should be pre-allocated
    assert!(table.get(STDIN_FD).is_some());
    assert!(table.get(STDOUT_FD).is_some());
    assert!(table.get(STDERR_FD).is_some());
    assert_eq!(table.open_count(), 3);
}

#[test]
fn test_fd_table_alloc() {
    let mut table = FdTable::new(Pid(1000));
    let fd = table.alloc_fd(FdTarget::Null, FdFlags::read_write());
    assert!(fd.is_some());
    assert_eq!(fd.unwrap(), 3); // First free after stdio
    assert_eq!(table.open_count(), 4);
}

#[test]
fn test_fd_table_alloc_multiple() {
    let mut table = FdTable::new(Pid(1000));
    for i in 0..10 {
        let fd = table.alloc_fd(FdTarget::Null, FdFlags::read_write()).unwrap();
        assert_eq!(fd, 3 + i as u32);
    }
    assert_eq!(table.open_count(), 13);
}

#[test]
fn test_fd_table_close() {
    let mut table = FdTable::new(Pid(1000));
    let fd = table.alloc_fd(FdTarget::Null, FdFlags::read_write()).unwrap();
    assert!(table.close(fd));
    assert_eq!(table.open_count(), 3); // Back to stdio only
    assert!(table.get(fd).is_none());
}

#[test]
fn test_fd_table_close_stdin() {
    let mut table = FdTable::new(Pid(1000));
    assert!(table.close(STDIN_FD));
    assert!(table.get(STDIN_FD).is_none());
    assert_eq!(table.open_count(), 2);
}

#[test]
fn test_fd_table_close_already_closed() {
    let mut table = FdTable::new(Pid(1000));
    let fd = table.alloc_fd(FdTarget::Null, FdFlags::read_write()).unwrap();
    assert!(table.close(fd));
    assert!(!table.close(fd)); // Double close fails
}

#[test]
fn test_fd_table_close_all() {
    let mut table = FdTable::new(Pid(1000));
    table.alloc_fd(FdTarget::Null, FdFlags::read_write());
    table.alloc_fd(FdTarget::Null, FdFlags::read_write());
    let count = table.close_all();
    assert_eq!(count, 5); // 3 stdio + 2 allocated
}

#[test]
fn test_fd_table_dup() {
    let mut table = FdTable::new(Pid(1000));
    let fd = table.alloc_fd(FdTarget::File { path: "test".into(), inode: 1 }, FdFlags::read_write()).unwrap();
    let dup_fd = table.dup(fd);
    assert!(dup_fd.is_some());
    assert_ne!(dup_fd.unwrap(), fd);
    assert_eq!(table.open_count(), 5); // 3 stdio + opened + dup
}

#[test]
fn test_fd_table_dup2() {
    let mut table = FdTable::new(Pid(1000));
    let fd = table.alloc_fd(FdTarget::File { path: "test".into(), inode: 1 }, FdFlags::read_write()).unwrap();
    assert!(table.dup2(fd, 10));
    let entry = table.get(10).unwrap();
    assert_eq!(entry.target, FdTarget::File { path: "test".into(), inode: 1 });
}

#[test]
fn test_fd_table_dup2_replaces() {
    let mut table = FdTable::new(Pid(1000));
    let fd1 = table.alloc_fd(FdTarget::Null, FdFlags::read_write()).unwrap();
    let fd2 = table.alloc_fd(FdTarget::Null, FdFlags::read_write()).unwrap();
    // dup2 fd1 onto fd2's slot — should close fd2 first
    assert!(table.dup2(fd1, fd2));
    assert_eq!(table.open_count(), 4); // 3 stdio + fd1 (fd2 replaced)
}

#[test]
fn test_fd_table_list_fds() {
    let mut table = FdTable::new(Pid(1000));
    table.alloc_fd(FdTarget::Null, FdFlags::read_write());
    table.alloc_fd(FdTarget::Null, FdFlags::read_write());
    let fds = table.list_fds();
    assert!(fds.contains(&0)); // stdin
    assert!(fds.contains(&1)); // stdout
    assert!(fds.contains(&2)); // stderr
    assert!(fds.contains(&3));
    assert!(fds.contains(&4));
    assert_eq!(fds.len(), 5);
}

#[test]
fn test_fd_table_seek() {
    let mut table = FdTable::new(Pid(1000));
    let fd = table.alloc_fd(FdTarget::File { path: "test".into(), inode: 1 }, FdFlags::read_write()).unwrap();
    assert!(table.seek(fd, 1024));
    let entry = table.get(fd).unwrap();
    assert_eq!(entry.offset, 1024);
}

#[test]
fn test_fd_table_check_access() {
    let mut table = FdTable::new(Pid(1000));
    let fd = table.alloc_fd(FdTarget::Null, FdFlags::read_only()).unwrap();
    assert!(table.check_access(fd, false)); // Can read
    assert!(!table.check_access(fd, true)); // Cannot write
}

#[test]
fn test_fd_table_reuse_closed_slot() {
    let mut table = FdTable::new(Pid(1000));
    let fd1 = table.alloc_fd(FdTarget::Null, FdFlags::read_write()).unwrap();
    assert_eq!(fd1, 3);
    table.close(fd1);
    let fd2 = table.alloc_fd(FdTarget::Null, FdFlags::read_write()).unwrap();
    assert_eq!(fd2, 3); // Reused slot
}

// --- Pipe tests ---

#[test]
fn test_pipe_new() {
    let pipe = Pipe::new(1);
    assert_eq!(pipe.id, 1);
    assert!(pipe.is_empty());
    assert!(!pipe.is_full());
    assert!(pipe.read_end_open);
    assert!(pipe.write_end_open);
}

#[test]
fn test_pipe_write_read() {
    let mut pipe = Pipe::new(1);
    let written = pipe.write(b"hello world");
    assert_eq!(written, 11);
    assert_eq!(pipe.available(), 11);

    let mut buf = [0u8; 20];
    let (read, eof) = pipe.read(&mut buf);
    assert_eq!(read, 11);
    assert!(!eof);
    assert_eq!(&buf[..11], b"hello world");
    assert!(pipe.is_empty());
}

#[test]
fn test_pipe_eof() {
    let mut pipe = Pipe::new(1);
    pipe.close_write();
    let mut buf = [0u8; 10];
    let (read, eof) = pipe.read(&mut buf);
    assert_eq!(read, 0);
    assert!(eof); // Write end closed → EOF
}

#[test]
fn test_pipe_no_reader() {
    let mut pipe = Pipe::new(1);
    pipe.close_read();
    let written = pipe.write(b"data");
    assert_eq!(written, 0); // No reader → 0 bytes written
}

#[test]
fn test_pipe_partial_read() {
    let mut pipe = Pipe::new(1);
    pipe.write(b"hello world");
    let mut buf = [0u8; 5];
    let (read, _) = pipe.read(&mut buf);
    assert_eq!(read, 5);
    assert_eq!(&buf, b"hello");
    assert_eq!(pipe.available(), 6); // " world" remaining
}

#[test]
fn test_pipe_stats() {
    let mut pipe = Pipe::new(1);
    pipe.write(b"test data");
    let mut buf = [0u8; 4];
    pipe.read(&mut buf);
    assert_eq!(pipe.total_written, 9);
    assert_eq!(pipe.total_read, 4);
}

#[test]
fn test_pipe_full() {
    let mut pipe = Pipe::new(1);
    let big = vec![0xAAu8; PIPE_BUF_SIZE + 100];
    let written = pipe.write(&big);
    assert_eq!(written, PIPE_BUF_SIZE); // Only writes up to buffer size
    assert!(pipe.is_full());
}

// --- PipeManager tests ---

#[test]
fn test_pipe_manager_create() {
    let mut mgr = PipeManager::new();
    let (id, read_t, write_t) = mgr.create_pipe();
    assert_eq!(id, 1);
    assert_eq!(mgr.pipe_count(), 1);
    assert!(matches!(read_t, FdTarget::PipeRead { pipe_id: 1 }));
    assert!(matches!(write_t, FdTarget::PipeWrite { pipe_id: 1 }));
}

#[test]
fn test_pipe_manager_multiple() {
    let mut mgr = PipeManager::new();
    let (id1, _, _) = mgr.create_pipe();
    let (id2, _, _) = mgr.create_pipe();
    assert_ne!(id1, id2);
    assert_eq!(mgr.pipe_count(), 2);
}

#[test]
fn test_pipe_manager_write_read() {
    let mut mgr = PipeManager::new();
    let (id, _, _) = mgr.create_pipe();
    let written = mgr.write(id, b"hello").unwrap();
    assert_eq!(written, 5);
    let mut buf = [0u8; 10];
    let (read, _) = mgr.read(id, &mut buf).unwrap();
    assert_eq!(read, 5);
}

#[test]
fn test_pipe_manager_close_end() {
    let mut mgr = PipeManager::new();
    let (id, _, _) = mgr.create_pipe();
    mgr.close_end(id, true); // Close write end
    let pipe = mgr.get_pipe(id).unwrap();
    assert!(!pipe.write_end_open);
}

#[test]
fn test_pipe_manager_cleanup() {
    let mut mgr = PipeManager::new();
    let (id1, _, _) = mgr.create_pipe();
    let (id2, _, _) = mgr.create_pipe();
    // Close both ends of pipe 1
    mgr.close_end(id1, true);
    mgr.close_end(id1, false);
    assert_eq!(mgr.pipe_count(), 2);
    mgr.cleanup();
    assert_eq!(mgr.pipe_count(), 1); // Only pipe 2 remains
}

// --- Poll tests ---

#[test]
fn test_poll_stdin_readable() {
    let table = FdTable::new(Pid(1000));
    let mgr = PipeManager::new();
    let mut entries = vec![PollEntry::new(STDIN_FD, vec![PollEvent::Readable])];
    let ready = poll(&table, &mgr, &mut entries);
    assert_eq!(ready, 1);
    assert!(entries[0].revents.contains(&PollEvent::Readable));
}

#[test]
fn test_poll_stdout_writable() {
    let table = FdTable::new(Pid(1000));
    let mgr = PipeManager::new();
    let mut entries = vec![PollEntry::new(STDOUT_FD, vec![PollEvent::Writable])];
    let ready = poll(&table, &mgr, &mut entries);
    assert_eq!(ready, 1);
    assert!(entries[0].revents.contains(&PollEvent::Writable));
}

#[test]
fn test_poll_pipe_readable() {
    let mut table = FdTable::new(Pid(1000));
    let mut mgr = PipeManager::new();
    let (id, read_t, _) = mgr.create_pipe();
    let fd = table.alloc_fd(read_t, FdFlags::read_only()).unwrap();
    mgr.write(id, b"data").unwrap();

    let mut entries = vec![PollEntry::new(fd, vec![PollEvent::Readable])];
    let ready = poll(&table, &mgr, &mut entries);
    assert_eq!(ready, 1);
    assert!(entries[0].revents.contains(&PollEvent::Readable));
}

#[test]
fn test_poll_pipe_empty_not_readable() {
    let mut table = FdTable::new(Pid(1000));
    let mut mgr = PipeManager::new();
    let (_, read_t, _) = mgr.create_pipe();
    let fd = table.alloc_fd(read_t, FdFlags::read_only()).unwrap();

    let mut entries = vec![PollEntry::new(fd, vec![PollEvent::Readable])];
    let ready = poll(&table, &mgr, &mut entries);
    assert_eq!(ready, 0); // Empty pipe, not ready
}

#[test]
fn test_poll_pipe_hangup() {
    let mut table = FdTable::new(Pid(1000));
    let mut mgr = PipeManager::new();
    let (id, read_t, _) = mgr.create_pipe();
    let fd = table.alloc_fd(read_t, FdFlags::read_only()).unwrap();
    mgr.close_end(id, true); // Close write end → hangup

    let mut entries = vec![PollEntry::new(fd, vec![PollEvent::Readable])];
    let ready = poll(&table, &mgr, &mut entries);
    assert_eq!(ready, 1);
    assert!(entries[0].revents.contains(&PollEvent::Hangup));
}

#[test]
fn test_poll_bad_fd() {
    let table = FdTable::new(Pid(1000));
    let mgr = PipeManager::new();
    let mut entries = vec![PollEntry::new(99, vec![PollEvent::Readable])];
    let ready = poll(&table, &mgr, &mut entries);
    assert_eq!(ready, 1);
    assert!(entries[0].revents.contains(&PollEvent::Error));
}

#[test]
fn test_poll_multiple_fds() {
    let mut table = FdTable::new(Pid(1000));
    let mgr = PipeManager::new();
    let fd = table.alloc_fd(FdTarget::Null, FdFlags::read_write()).unwrap();
    let mut entries = vec![
        PollEntry::new(STDIN_FD, vec![PollEvent::Readable]),
        PollEntry::new(STDOUT_FD, vec![PollEvent::Writable]),
        PollEntry::new(fd, vec![PollEvent::Readable, PollEvent::Writable]),
    ];
    let ready = poll(&table, &mgr, &mut entries);
    assert_eq!(ready, 3); // All ready
}

// --- UserIoManager tests ---

#[test]
fn test_io_manager_new() {
    let mgr = UserIoManager::new();
    assert_eq!(mgr.process_count(), 0);
    assert_eq!(mgr.pipe_count(), 0);
}

#[test]
fn test_io_manager_register() {
    let mut mgr = UserIoManager::new();
    mgr.register(Pid(1000));
    assert_eq!(mgr.process_count(), 1);
    assert_eq!(mgr.fd_count(Pid(1000)), 3); // stdio
}

#[test]
fn test_io_manager_double_register() {
    let mut mgr = UserIoManager::new();
    mgr.register(Pid(1000));
    mgr.register(Pid(1000)); // No-op
    assert_eq!(mgr.process_count(), 1);
}

#[test]
fn test_io_manager_unregister() {
    let mut mgr = UserIoManager::new();
    mgr.register(Pid(1000));
    let closed = mgr.unregister(Pid(1000));
    assert_eq!(closed, 3); // stdio closed
    assert_eq!(mgr.process_count(), 0);
}

#[test]
fn test_io_manager_open() {
    let mut mgr = UserIoManager::new();
    mgr.register(Pid(1000));
    let fd = mgr.open(Pid(1000), "/test/file", FdFlags::read_write());
    assert!(fd.is_some());
    assert_eq!(mgr.fd_count(Pid(1000)), 4);
    assert_eq!(mgr.total_opens(), 1);
}

#[test]
fn test_io_manager_close() {
    let mut mgr = UserIoManager::new();
    mgr.register(Pid(1000));
    let fd = mgr.open(Pid(1000), "/test", FdFlags::read_write()).unwrap();
    assert!(mgr.close(Pid(1000), fd));
    assert_eq!(mgr.fd_count(Pid(1000)), 3);
    assert_eq!(mgr.total_closes(), 1);
}

#[test]
fn test_io_manager_write_stdout() {
    let mut mgr = UserIoManager::new();
    mgr.register(Pid(1000));
    let written = mgr.write(Pid(1000), STDOUT_FD, b"hello").unwrap();
    assert_eq!(written, 5);
    assert_eq!(mgr.total_writes(), 1);
}

#[test]
fn test_io_manager_read_stdin() {
    let mut mgr = UserIoManager::new();
    mgr.register(Pid(1000));
    let mut buf = [0u8; 10];
    let (read, _) = mgr.read(Pid(1000), STDIN_FD, &mut buf).unwrap();
    assert!(read > 0);
    assert_eq!(mgr.total_reads(), 1);
}

#[test]
fn test_io_manager_pipe_same_process() {
    let mut mgr = UserIoManager::new();
    mgr.register(Pid(1000));
    let (read_fd, write_fd) = mgr.pipe(Pid(1000)).unwrap();
    assert_ne!(read_fd, write_fd);

    // Write to pipe
    mgr.write(Pid(1000), write_fd, b"pipe data").unwrap();
    // Read from pipe
    let mut buf = [0u8; 20];
    let (read, eof) = mgr.read(Pid(1000), read_fd, &mut buf).unwrap();
    assert_eq!(read, 9);
    assert!(!eof);
    assert_eq!(&buf[..9], b"pipe data");
}

#[test]
fn test_io_manager_pipe_between_processes() {
    let mut mgr = UserIoManager::new();
    mgr.register(Pid(1000));
    mgr.register(Pid(1001));

    let (read_fd, write_fd) = mgr.pipe_between(Pid(1000), Pid(1001)).unwrap();

    // P1001 writes, P1000 reads
    mgr.write(Pid(1001), write_fd, b"cross-process").unwrap();
    let mut buf = [0u8; 20];
    let (read, _) = mgr.read(Pid(1000), read_fd, &mut buf).unwrap();
    assert_eq!(read, 15);
    assert_eq!(&buf[..15], b"cross-process");
}

#[test]
fn test_io_manager_dup() {
    let mut mgr = UserIoManager::new();
    mgr.register(Pid(1000));
    let fd = mgr.open(Pid(1000), "/test", FdFlags::read_write()).unwrap();
    let dup_fd = mgr.dup(Pid(1000), fd);
    assert!(dup_fd.is_some());
    assert_ne!(dup_fd.unwrap(), fd);
}

#[test]
fn test_io_manager_seek() {
    let mut mgr = UserIoManager::new();
    mgr.register(Pid(1000));
    let fd = mgr.open(Pid(1000), "/test", FdFlags::read_write()).unwrap();
    assert!(mgr.seek(Pid(1000), fd, 2048));
}

#[test]
fn test_io_manager_read_closed_fd() {
    let mut mgr = UserIoManager::new();
    mgr.register(Pid(1000));
    let fd = mgr.open(Pid(1000), "/test", FdFlags::read_write()).unwrap();
    mgr.close(Pid(1000), fd);
    assert!(mgr.read(Pid(1000), fd, &mut [0u8; 10]).is_none());
}

#[test]
fn test_io_manager_write_readonly_fd() {
    let mut mgr = UserIoManager::new();
    mgr.register(Pid(1000));
    let fd = mgr.open(Pid(1000), "/test", FdFlags::read_only()).unwrap();
    assert!(mgr.write(Pid(1000), fd, b"data").is_none());
}

#[test]
fn test_io_manager_read_writeonly_fd() {
    let mut mgr = UserIoManager::new();
    mgr.register(Pid(1000));
    let fd = mgr.open(Pid(1000), "/test", FdFlags::write_only()).unwrap();
    assert!(mgr.read(Pid(1000), fd, &mut [0u8; 10]).is_none());
}

#[test]
fn test_io_manager_poll() {
    let mut mgr = UserIoManager::new();
    mgr.register(Pid(1000));
    let entries = vec![
        PollEntry::new(STDIN_FD, vec![PollEvent::Readable]),
        PollEntry::new(STDOUT_FD, vec![PollEvent::Writable]),
    ];
    let ready = mgr.poll(Pid(1000), entries);
    assert_eq!(ready, 2);
}

#[test]
fn test_io_error_display() {
    assert_eq!(IoError::BadFd.message(), "bad file descriptor");
    assert_eq!(IoError::PipeBroken.message(), "broken pipe");
    assert_eq!(IoError::WouldBlock.message(), "would block");
    assert_eq!(IoError::NotFound.message(), "not found");
}

#[test]
fn test_fd_table_max_fds() {
    let mut table = FdTable::new(Pid(1000));
    let mut count = 0;
    while table.alloc_fd(FdTarget::Null, FdFlags::read_write()).is_some() {
        count += 1;
        if count > MAX_FDS { break; }
    }
    assert_eq!(count, MAX_FDS - 3); // MAX_FDS minus stdio
}

#[test]
fn test_multiple_processes_isolated() {
    let mut mgr = UserIoManager::new();
    mgr.register(Pid(1000));
    mgr.register(Pid(1001));

    let fd1 = mgr.open(Pid(1000), "/proc1", FdFlags::read_write()).unwrap();
    let fd2 = mgr.open(Pid(1001), "/proc2", FdFlags::read_write()).unwrap();

    // Each process has its own FD table
    assert_eq!(mgr.fd_count(Pid(1000)), 4);
    assert_eq!(mgr.fd_count(Pid(1001)), 4);
    // Both have fd=3, but different files
    assert!(mgr.get_table(Pid(1000)).unwrap().get(3).is_some());
    assert!(mgr.get_table(Pid(1001)).unwrap().get(3).is_some());
}
