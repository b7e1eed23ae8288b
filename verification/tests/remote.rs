use my_remote_speaker::android_lib_args::{LaunchMode, LibLaunchArgs};
use my_remote_speaker::android_lib_embed::{
    check_file_len, payload_range, EmbedError, Field, FileRange, Payload,
};
use my_remote_speaker::android_lib_func::{is_config, stop_file_step, StopStep};
use my_remote_speaker::android_log::{LogMode, MagiskLineWriter};
use my_remote_speaker::android_opts::{Commands, DaemonArgs, MagiskCommonArgs};
use my_remote_speaker::aud::dcblocker::DcBlockerHandle;
use my_remote_speaker::conf::KeypairConf;
use my_remote_speaker::launcher::{
    exit_code, has_write_permission_in_dir, select_temp_dir_for_launch, LaunchNext, LaunchState,
    LaunchStep, StopFlags,
};
use my_remote_speaker::rmt::endpoint::{
    store_audio_sample_begin, store_audio_sample_step, store_audio_sample_task_state, StageResult,
    StoreNext, StoreStage,
};
use my_remote_speaker::rmt::keypair::{
    check_pair, generate_new_keypair, key_encode, load_conf, load_or_recover, pair_of,
    read_public_key, read_secret_key, start, KeypairError,
};
use my_remote_speaker::rmt::sample::{
    cache_next, store_next, DbError, DbNext, DbOutcome, DbStage,
};
use my_remote_speaker::rpc::{
    QuerySampleError, RemoveSampleError, StoreSampleError, StoreSampleProgress,
    StoreSampleTaskState, TaskManageError,
};
use my_remote_speaker::task::manager::TaskOutcome;
use my_remote_speaker::task::{TaskData, TaskId, TaskManager};

// RFC 8032, section 7.1, first test.
const SECRET: [u8; 32] = [
    0x9d, 0x61, 0xb1, 0x9d, 0xef, 0xfd, 0x5a, 0x60, 0xba, 0x84, 0x4a, 0xf4, 0x92, 0xec, 0x2c, 0xc4,
    0x44, 0x49, 0xc5, 0x69, 0x7b, 0x32, 0x69, 0x19, 0x70, 0x3b, 0xac, 0x03, 0x1c, 0xae, 0x7f, 0x60,
];
const PUBLIC: [u8; 32] = [
    0xd7, 0x5a, 0x98, 0x01, 0x82, 0xb1, 0x0a, 0xb7, 0xd5, 0x4b, 0xfe, 0xd3, 0xc9, 0x64, 0x07, 0x3a,
    0x0e, 0xe1, 0x72, 0xf3, 0xda, 0xa6, 0x23, 0x25, 0xaf, 0x02, 0x1a, 0x68, 0xf7, 0x07, 0x51, 0x1a,
];

/// Bytes that are no point on the curve.
fn no_key() -> [u8; 32] {
    for b in 0..=255u8 {
        let mut bytes = [0u8; 32];
        bytes[0] = b;
        let conf = KeypairConf { public_part: bytes, private_part: SECRET };
        if read_public_key(&conf).is_err() {
            return bytes;
        }
    }
    panic!("every byte string is a key");
}

#[test]
fn good_pair_is_loaded() {
    let conf = KeypairConf { public_part: PUBLIC, private_part: SECRET };
    let loaded = load_conf(Ok(conf)).ok().unwrap();
    assert_eq!(loaded.public_part, PUBLIC);
    let r = load_or_recover(Ok(conf));
    assert!(!r.rotated);
    assert_eq!(read_secret_key(&r.conf), SECRET);
    assert_eq!(read_public_key(&r.conf).ok().unwrap(), PUBLIC);
}

#[test]
fn bad_pairs_are_refused_and_replaced() {
    let swapped = KeypairConf { public_part: PUBLIC, private_part: [7; 32] };
    match load_conf(Ok(swapped)) {
        Err(KeypairError::KeypairMismatch { pub_bytes, pri_bytes }) => {
            assert_eq!(pub_bytes, PUBLIC);
            assert_eq!(pri_bytes, [7; 32]);
        }
        _ => panic!("a pair that does not match must be refused"),
    }
    let broken = KeypairConf { public_part: no_key(), private_part: SECRET };
    match load_conf(Ok(broken)) {
        Err(KeypairError::ParsePublicKey { pub_bytes, .. }) => assert_eq!(pub_bytes, no_key()),
        _ => panic!("bytes that are no key must be refused"),
    }
    for bad in [swapped, broken] {
        let r = load_or_recover(Ok(bad));
        assert!(r.rotated);
        assert!(load_conf(Ok(r.conf)).is_ok());
    }
}

#[test]
fn unreadable_pair_is_replaced() {
    let unread = || KeypairError::ReadFile { source: "no".into(), fp: "keypair.json".into() };
    assert!(matches!(load_conf(Err(unread())), Err(KeypairError::ReadFile { .. })));
    let first = load_or_recover(Err(unread()));
    assert!(first.rotated);
    let second = load_or_recover(Ok(first.conf));
    assert!(!second.rotated);
    assert_eq!(second.conf.private_part, first.conf.private_part);
}

#[test]
fn pair_is_found_when_the_speaker_starts() {
    let conf = KeypairConf { public_part: PUBLIC, private_part: SECRET };
    assert!(matches!(
        start(false, "/conf".into(), Ok(conf)),
        Err(KeypairError::DirectoryNotFound { fp }) if fp == "/conf"
    ));
    let found = start(true, "/conf".into(), Ok(conf)).ok().unwrap();
    assert!(!found.rotated);
    assert_eq!(found.conf.public_part, PUBLIC);
}

#[test]
fn pair_of_a_secret_key() {
    let conf = pair_of(SECRET);
    assert_eq!(conf.private_part, SECRET);
    assert_eq!(conf.public_part, PUBLIC);
}

#[test]
fn new_pairs_are_good_and_differ() {
    let a = generate_new_keypair();
    let b = generate_new_keypair();
    assert!(load_conf(Ok(a)).is_ok());
    assert_ne!(a.private_part, b.private_part);
    assert_ne!(a.public_part, a.private_part);
}

#[test]
fn pair_is_checked_against_what_is_derived() {
    let conf = KeypairConf { public_part: PUBLIC, private_part: SECRET };
    assert!(check_pair(conf, Ok(()), &PUBLIC).is_ok());
    assert!(matches!(
        check_pair(conf, Ok(()), &SECRET),
        Err(KeypairError::KeypairMismatch { .. })
    ));
}

#[test]
fn keys_in_base64() {
    assert_eq!(key_encode(&[]), "");
    assert_eq!(key_encode(b"f"), "Zg==");
    assert_eq!(key_encode(b"fo"), "Zm8=");
    assert_eq!(key_encode(b"foo"), "Zm9v");
    assert_eq!(key_encode(b"foob"), "Zm9vYg==");
    assert_eq!(key_encode(&[0xfb, 0xff, 0xfe]), "+//+");
    assert_eq!(key_encode(&[0u8; 32]).len(), 44);
}

fn stage_of(next: StoreNext) -> (StoreStage, Vec<StoreSampleProgress>) {
    match next {
        StoreNext::Go { reports, stage } => (stage, reports),
        s => panic!("unexpected end: {:?}", s),
    }
}

#[test]
fn sample_goes_through_all_stages() {
    let (mut stage, mut reports) = stage_of(store_audio_sample_begin());
    let mut stages = vec![stage];
    loop {
        match store_audio_sample_step(stage, StageResult::Done) {
            StoreNext::Go { reports: more, stage: next } => {
                reports.extend(more);
                stages.push(next);
                stage = next;
            }
            StoreNext::Finish(r) => {
                assert!(r.is_ok());
                break;
            }
        }
    }
    assert_eq!(
        stages,
        vec![
            StoreStage::Begin,
            StoreStage::Lookup,
            StoreStage::Download,
            StoreStage::ReadBlob,
            StoreStage::Write,
            StoreStage::Commit
        ]
    );
    assert_eq!(
        reports,
        vec![
            StoreSampleProgress::CheckingDatabase,
            StoreSampleProgress::DownloadingSample,
            StoreSampleProgress::ReadingBlob,
            StoreSampleProgress::CheckingSampleData,
            StoreSampleProgress::CommittingDatabase
        ]
    );
}

#[test]
fn failures_of_storing_a_sample() {
    assert!(matches!(
        store_audio_sample_step(StoreStage::Lookup, StageResult::Found),
        StoreNext::Finish(Err(StoreSampleError::SampleExists))
    ));
    for stage in [StoreStage::Begin, StoreStage::Lookup, StoreStage::Write, StoreStage::Commit] {
        assert!(matches!(
            store_audio_sample_step(stage, StageResult::Failed("x".into())),
            StoreNext::Finish(Err(StoreSampleError::DatabaseError(m))) if m == "x"
        ));
    }
    for stage in [StoreStage::Download, StoreStage::ReadBlob] {
        assert!(matches!(
            store_audio_sample_step(stage, StageResult::Failed("x".into())),
            StoreNext::Finish(Err(StoreSampleError::TicketNotReached(m))) if m == "x"
        ));
    }
}

#[test]
fn state_of_a_storing_task() {
    let mut tm = TaskManager::new();
    assert!(matches!(
        store_audio_sample_task_state(&tm, TaskId(5)),
        Err(TaskManageError::NotFound)
    ));
    let id = tm.spawn().id;
    assert!(matches!(
        store_audio_sample_task_state(&tm, id),
        Ok(StoreSampleTaskState::Pending)
    ));
    tm.report(id, StoreSampleProgress::ReadingBlob.into_value());
    assert!(matches!(
        store_audio_sample_task_state(&tm, id),
        Ok(StoreSampleTaskState::Running(StoreSampleProgress::ReadingBlob))
    ));
    tm.finish(id, TaskOutcome::Failed(StoreSampleError::SampleExists.into_value()));
    assert!(matches!(
        store_audio_sample_task_state(&tm, id),
        Ok(StoreSampleTaskState::Failed(StoreSampleError::SampleExists))
    ));
    let done = tm.spawn().id;
    tm.finish(done, TaskOutcome::Completed(StoreSampleTaskState::Completed(()).into_value()));
    assert!(matches!(
        store_audio_sample_task_state(&tm, done),
        Ok(StoreSampleTaskState::Completed(()))
    ));
    let other = tm.spawn().id;
    tm.finish(other, TaskOutcome::Completed(().into_value()));
    assert!(matches!(
        store_audio_sample_task_state(&tm, other),
        Err(TaskManageError::NotFound)
    ));
    let cancelled = tm.spawn().id;
    tm.cancel_task(cancelled);
    assert!(store_audio_sample_task_state(&tm, cancelled).is_err());
}

#[test]
fn store_is_rebuilt_only_if_broken() {
    assert_eq!(store_next(DbStage::FindDir, DbOutcome::Failed), DbNext::Fail(DbError::DirectoryNotFound));
    assert_eq!(store_next(DbStage::FindDir, DbOutcome::Done), DbNext::Go(DbStage::Test));
    assert_eq!(store_next(DbStage::Test, DbOutcome::Done), DbNext::Ready);
    assert_eq!(store_next(DbStage::Test, DbOutcome::Failed), DbNext::Go(DbStage::Remove));
    assert_eq!(store_next(DbStage::Remove, DbOutcome::Failed), DbNext::Fail(DbError::RemoveDir));
    assert_eq!(store_next(DbStage::Remove, DbOutcome::Done), DbNext::Go(DbStage::Create));
    assert_eq!(store_next(DbStage::Create, DbOutcome::Failed), DbNext::Fail(DbError::CreateDir));
    assert_eq!(store_next(DbStage::Create, DbOutcome::Done), DbNext::Go(DbStage::Retest));
    assert_eq!(store_next(DbStage::Retest, DbOutcome::Failed), DbNext::Fail(DbError::LoadDatabase));
    assert_eq!(store_next(DbStage::Retest, DbOutcome::Done), DbNext::Ready);
    assert_eq!(store_next(DbStage::Test, DbOutcome::NoRuntime), DbNext::Go(DbStage::Remove));
    assert_eq!(
        store_next(DbStage::Retest, DbOutcome::NoRuntime),
        DbNext::Fail(DbError::StartRuntime)
    );
}

#[test]
fn cache_is_always_rebuilt() {
    assert_eq!(cache_next(DbStage::FindDir, DbOutcome::Failed), DbNext::Fail(DbError::DirectoryNotFound));
    assert_eq!(cache_next(DbStage::FindDir, DbOutcome::Done), DbNext::Go(DbStage::FindOwnDir));
    assert_eq!(cache_next(DbStage::FindOwnDir, DbOutcome::Done), DbNext::Go(DbStage::Remove));
    assert_eq!(cache_next(DbStage::FindOwnDir, DbOutcome::Failed), DbNext::Go(DbStage::Create));
    assert_eq!(cache_next(DbStage::Retest, DbOutcome::Done), DbNext::Ready);
    assert_eq!(
        cache_next(DbStage::Retest, DbOutcome::Failed),
        DbNext::Fail(DbError::LoadDatabase)
    );
    assert_eq!(
        cache_next(DbStage::Retest, DbOutcome::NoRuntime),
        DbNext::Fail(DbError::StartRuntime)
    );
}

#[test]
fn errors_in_words() {
    assert_eq!(TaskManageError::NotFound.message(), "Task not found.");
    assert_eq!(TaskManageError::DowncastError.message(), "Task downcast error.");
    assert_eq!(
        StoreSampleError::TicketNotReached("x".into()).message(),
        "Ticket can not be reached: x"
    );
    assert_eq!(StoreSampleError::DatabaseError("y".into()).message(), "Database Error: y");
    assert_eq!(StoreSampleError::SampleExists.message(), "Audio sample exists.");
    assert_eq!(StoreSampleError::BrokenSample.message(), "Audio sample is broken.");
    assert_eq!(StoreSampleError::BrokenPack.message(), "Data pack is broken.");
    assert_eq!(QuerySampleError::NotFound.message(), "Hash not found.");
    assert_eq!(RemoveSampleError::NotFound.message(), "Hash not found.");
}

// The digest of "abc".
const ABC: [u8; 32] = [
    0xba, 0x78, 0x16, 0xbf, 0x8f, 0x01, 0xcf, 0xea, 0x41, 0x41, 0x40, 0xde, 0x5d, 0xae, 0x22, 0x23,
    0xb0, 0x03, 0x61, 0xa3, 0x96, 0x17, 0x7a, 0x9c, 0xb4, 0x10, 0xff, 0x61, 0xf2, 0x00, 0x15, 0xad,
];

fn payload() -> Payload {
    Payload {
        jar_digest: ABC.to_vec(),
        jar_data: b"abc".to_vec(),
        lib_digest: ABC.to_vec(),
        lib_data: b"abc".to_vec(),
    }
}

#[test]
fn payload_is_validated() {
    assert_eq!(payload().validate(), Ok(()));
    let mut p = payload();
    p.jar_data = b"abd".to_vec();
    assert_eq!(p.validate(), Err(EmbedError::DigestMismatch { field: Field::JarDigest }));
    let mut p = payload();
    p.lib_data = b"ab".to_vec();
    assert_eq!(p.validate(), Err(EmbedError::DigestMismatch { field: Field::LibDigest }));
    let mut p = payload();
    p.jar_data = vec![];
    p.lib_data = vec![];
    assert_eq!(p.validate(), Err(EmbedError::EmptyData { field: Field::JarDigest }));
    let mut p = payload();
    p.lib_data = vec![];
    assert_eq!(p.validate(), Err(EmbedError::EmptyData { field: Field::LibDigest }));
    let mut p = payload();
    p.jar_digest.pop();
    p.lib_digest.pop();
    assert_eq!(
        p.validate(),
        Err(EmbedError::InvalidDigestLength { field: Field::JarDigest, actual: 31 })
    );
    let mut p = payload();
    p.lib_digest.push(0);
    assert_eq!(
        p.validate(),
        Err(EmbedError::InvalidDigestLength { field: Field::LibDigest, actual: 33 })
    );
    assert_eq!(payload().validate_against(&ABC.to_vec(), &ABC.to_vec()), Ok(()));
    assert_eq!(Field::JarDigest.name(), "jar_digest");
    assert_eq!(Field::LibDigest.name(), "lib_digest");
}

fn tail(n: u64, magic: &[u8; 8]) -> [u8; 16] {
    let mut t = [0u8; 16];
    t[..8].copy_from_slice(&n.to_le_bytes());
    t[8..].copy_from_slice(magic);
    t
}

#[test]
fn payload_is_found_before_the_trailer() {
    assert_eq!(check_file_len(15), Err(EmbedError::FileSmall));
    assert_eq!(check_file_len(16), Ok(()));
    assert_eq!(payload_range(100, &tail(4, b"MRS-data")), Err(EmbedError::NoMagic));
    assert_eq!(payload_range(100, &tail(85, b"MRS-Data")), Err(EmbedError::IncorrectSize));
    assert_eq!(
        payload_range(100, &tail(84, b"MRS-Data")),
        Ok(FileRange { start: 0, len: 84 })
    );
    let n = 0x0102_0304;
    assert_eq!(
        payload_range(n + 116, &tail(n, b"MRS-Data")),
        Ok(FileRange { start: 100, len: n })
    );
}

#[test]
fn appended_payload_is_read_back() {
    let mut file = b"launcher".to_vec();
    file.extend(b"the payload");
    file.extend(11u64.to_le_bytes());
    file.extend(b"MRS-Data");
    let mut t = [0u8; 16];
    t.copy_from_slice(&file[file.len() - 16..]);
    let range = payload_range(file.len() as u64, &t).unwrap();
    let (start, len) = (range.start as usize, range.len as usize);
    assert_eq!(&file[start..start + len], b"the payload");
}

#[test]
fn lines_are_marked() {
    let mut w = MagiskLineWriter::new();
    assert_eq!(w.write(b"one\ntwo"), b"ui_print one\nui_print two".to_vec());
    assert_eq!(w.write(b" more\n"), b" more\n".to_vec());
    assert_eq!(w.write(b""), b"".to_vec());
    assert_eq!(w.write(b"\n\nx"), b"ui_print \nui_print \nui_print x".to_vec());
    let mut whole = MagiskLineWriter::new();
    let mut parts = MagiskLineWriter::new();
    let at_once = whole.write(b"a\nb\nc");
    let mut in_parts = parts.write(b"a");
    in_parts.extend(parts.write(b"\nb\n"));
    in_parts.extend(parts.write(b"c"));
    assert_eq!(at_once, in_parts);
}

#[test]
fn log_modes() {
    let args = || MagiskCommonArgs {
        module_id: "m".into(),
        module_dir: "/m".into(),
        temp_path: "/t".into(),
    };
    assert_eq!(Commands::MagiskInstall(args()).log_mode(), LogMode::Magisk);
    assert_eq!(Commands::MagiskUninstall(args()).log_mode(), LogMode::Magisk);
    let daemon = DaemonArgs { conf_path: "/c".into(), temp_path: "/t".into() };
    assert_eq!(Commands::Daemon(daemon).log_mode(), LogMode::Standard);
    assert_eq!(LaunchMode::Normal.log_mode(), LogMode::Standard);
    let mode = LaunchMode::Magisk { mod_id: "m".into(), module_dir: "/m".into() };
    assert_eq!(mode.log_mode(), LogMode::Magisk);
    let mut launch = LibLaunchArgs {
        launch_mode: mode,
        conf_path: "/c".into(),
        temp_path: "/t".into(),
        stop_file: Some("old".into()),
    };
    launch.set_stop_file("/t/should_stop".into());
    assert_eq!(launch.stop_file.as_deref(), Some("/t/should_stop"));
}

#[test]
fn library_configuration_and_end() {
    assert!(is_config("{\"a\":1}"));
    assert!(!is_config(""));
    assert!(!is_config(" {}"));
    assert_eq!(stop_file_step(true, Some(true)), StopStep::Leave);
    assert_eq!(stop_file_step(false, Some(true)), StopStep::Cancel);
    assert_eq!(stop_file_step(false, Some(false)), StopStep::Keep);
    assert_eq!(stop_file_step(false, None), StopStep::Keep);
}

#[test]
fn process_is_ended_then_killed() {
    const S: u128 = 1_000_000_000;
    let mut flags = StopFlags::new();
    let mut state = LaunchState::new();
    let step = |signal, next| LaunchStep { signal, next };
    assert_eq!(state.look(false, flags, 0), step(false, LaunchNext::Sleep));
    flags.interrupt();
    assert!(!flags.running && !flags.force_stop);
    assert_eq!(state.look(false, flags, S), step(true, LaunchNext::Sleep));
    assert_eq!(state.look(false, flags, 10 * S), step(false, LaunchNext::Sleep));
    assert_eq!(state.look(false, flags, 11 * S), step(false, LaunchNext::Kill));
    assert_eq!(state.look(true, flags, 12 * S), step(false, LaunchNext::Ended));
    flags.interrupt();
    assert!(flags.force_stop);
    let mut fresh = LaunchState::new();
    assert_eq!(fresh.look(false, flags, S), step(true, LaunchNext::Kill));
}

#[test]
fn exit_codes() {
    assert_eq!(exit_code(Some(3), Some(9)), 3);
    assert_eq!(exit_code(None, Some(9)), 137);
    assert_eq!(exit_code(None, None), -1);
}

#[test]
fn directory_for_the_process() {
    assert_eq!(select_temp_dir_for_launch(true, true, "/f".into()), "/data/local/tmp");
    assert_eq!(select_temp_dir_for_launch(true, false, "/f".into()), "/f");
    assert_eq!(select_temp_dir_for_launch(false, true, "/f".into()), "/f");
    assert!(has_write_permission_in_dir(true, true, true, true));
    assert!(!has_write_permission_in_dir(true, true, true, false));
    assert!(!has_write_permission_in_dir(false, true, true, true));
}

#[test]
fn dc_blocker_reset_is_taken_once() {
    let mut h = DcBlockerHandle::new();
    assert!(!h.take());
    h.reset();
    h.reset();
    assert!(h.take());
    assert!(!h.take());
}
