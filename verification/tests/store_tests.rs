use capture_store::fanout::{tailer_step, FanOut};
use capture_store::cache::BlobCache;
use capture_store::command::{parse_command, CommandError};
use capture_store::frame::{Error, Frame, MimeType};
use capture_store::ids::{id_to_text, parse_id};
use capture_store::log::FrameLog;
use capture_store::state::{infer_mime_type, route, GetOutcome, HttpMethod, Route, SharedState};
use capture_store::view::ViewProjection;

#[test]
fn blob_round_trip() {
    let mut cache = BlobCache::open(String::from("/tmp/capture_store_test_rt"));
    let h = cache
        .put(b"some payload".to_vec(), MimeType::TextPlain, String::from("Text"))
        .unwrap();
    let got = cache.get_stream(&h).expect("stored blob must be readable");
    assert_eq!(got.as_slice(), b"some payload");
}

#[test]
fn blob_dedup_same_hash_no_growth() {
    let mut cache = BlobCache::open(String::from("/tmp/capture_store_test_dedup"));
    let h1 = cache
        .put(b"twice stored".to_vec(), MimeType::TextPlain, String::from("Text"))
        .unwrap();
    let len_after_first = cache.len();
    let h2 = cache
        .put(b"twice stored".to_vec(), MimeType::TextPlain, String::from("Text"))
        .unwrap();
    assert_eq!(h1, h2);
    assert_eq!(cache.len(), len_after_first);
    let h3 = cache
        .put(b"other bytes".to_vec(), MimeType::TextPlain, String::from("Text"))
        .unwrap();
    assert_ne!(h1, h3);
    assert_eq!(cache.len(), len_after_first + 1);
}

#[test]
fn blob_put_fails_on_unwritable_dir() {
    let mut cache = BlobCache::open(String::from("/proc/0/no_such_cache_dir"));
    let r = cache.put(b"abc".to_vec(), MimeType::TextPlain, String::from("Text"));
    assert!(matches!(r, Err(Error::IoError)));
    assert_eq!(cache.len(), 0);
}

#[test]
fn log_read_from_cursor_ordering() {
    let mut log = FrameLog::open();
    let f1 = log.append(String::from("clipboard"), None, None);
    let f2 = log.append(String::from("clipboard"), None, None);
    let f3 = log.append(String::from("command"), None, None);
    assert!(f1.id < f2.id && f2.id < f3.id);

    let all = log.read_from(None);
    assert_eq!(all.len(), 3);
    for w in all.windows(2) {
        assert!(w[0].id < w[1].id);
    }

    let after = log.read_from(Some(f1.id));
    assert_eq!(after.len(), 2);
    for fr in &after {
        assert!(fr.id > f1.id);
    }
    assert_eq!(after[0].id, f2.id);
    assert_eq!(after[1].id, f3.id);

    let none = log.read_from(Some(f3.id));
    assert!(none.is_empty());
}

#[test]
fn log_insert_rejects_duplicate_and_unminted() {
    let mut log = FrameLog::open();
    let reserved = log.mint_id();
    let f1 = log.append(String::from("clipboard"), None, None);
    let committed = Frame {
        id: reserved,
        topic: String::from("stream"),
        stack_id: None,
        hash: None,
    };
    assert!(log.insert_frame(committed).is_ok());
    // the late commit sits before the later append
    let all = log.read_from(None);
    assert_eq!(all[0].id, reserved);
    assert_eq!(all[1].id, f1.id);
    // same id again: rejected
    let again = Frame { id: reserved, topic: String::from("stream"), stack_id: None, hash: None };
    assert!(matches!(log.insert_frame(again), Err(Error::IoError)));
    // an id this log never minted: rejected
    let foreign = Frame { id: u128::MAX, topic: String::from("x"), stack_id: None, hash: None };
    assert!(matches!(log.insert_frame(foreign), Err(Error::IoError)));
}

#[test]
fn merge_is_idempotent_for_children() {
    let mut view = ViewProjection::new();
    let stack = Frame { id: 1, topic: String::from("stack"), stack_id: None, hash: None };
    let child = Frame {
        id: 2,
        topic: String::from("clipboard"),
        stack_id: Some(1),
        hash: Some(String::from("sha256-abc")),
    };
    view.merge(&stack);
    view.merge(&child);
    let once = view.children(1);
    assert_eq!(once.len(), 1);
    view.merge(&child);
    let twice = view.children(1);
    assert_eq!(twice.len(), 1);
    assert_eq!(twice[0].id, once[0].id);
    assert_eq!(twice[0].stack_id, once[0].stack_id);
    assert_eq!(twice[0].hash, once[0].hash);
    assert_eq!(view.lookup(2).unwrap().id, 2);
    assert!(view.lookup(3).is_none());
}

#[test]
fn subscribe_publish_subscribe_atomicity() {
    let mut b = FanOut::new();
    let (backlog_a, a) = b.subscribe();
    assert!(backlog_a.is_empty());

    let f1 = Frame { id: 10, topic: String::from("clipboard"), stack_id: None, hash: None };
    b.publish(&f1);

    let (backlog_b, bb) = b.subscribe();
    // B's backlog ends with f1, exactly once
    assert_eq!(backlog_b.len(), 1);
    assert_eq!(backlog_b[0].id, 10);
    // A's live channel receives f1 exactly once
    let pending_a = b.take_pending(a);
    assert_eq!(pending_a.len(), 1);
    assert_eq!(pending_a[0].id, 10);
    // and not twice
    assert!(b.take_pending(a).is_empty());
    // B's live channel holds nothing: f1 was in its backlog already
    assert!(b.take_pending(bb).is_empty());

    // successor frames reach both, once each
    let f2 = Frame { id: 11, topic: String::from("clipboard"), stack_id: None, hash: None };
    b.publish(&f2);
    let pa = b.take_pending(a);
    let pb = b.take_pending(bb);
    assert_eq!(pa.len(), 1);
    assert_eq!(pa[0].id, 11);
    assert_eq!(pb.len(), 1);
    assert_eq!(pb[0].id, 11);
    assert!(b.take_pending(a).is_empty());
    assert!(b.take_pending(bb).is_empty());
}

#[test]
fn closed_channel_gets_nothing() {
    let mut b = FanOut::new();
    let (_, a) = b.subscribe();
    let (_, c) = b.subscribe();
    b.close(a);
    let f = Frame { id: 5, topic: String::from("clipboard"), stack_id: None, hash: None };
    b.publish(&f);
    assert!(b.take_pending(a).is_empty());
    assert_eq!(b.take_pending(c).len(), 1);
}

#[test]
fn route_not_found_for_malformed_and_post_elsewhere() {
    assert_eq!(route(HttpMethod::Get, "/notavalididatall"), Route::NotFound);
    assert_eq!(route(HttpMethod::Get, "/"), Route::NotFound);
    assert_eq!(route(HttpMethod::Get, ""), Route::NotFound);
    assert_eq!(route(HttpMethod::Get, "nosegment"), Route::NotFound);
    assert_eq!(route(HttpMethod::Post, "/"), Route::PostStream);
    assert_eq!(route(HttpMethod::Post, "/anything"), Route::NotFound);
}

#[test]
fn route_resolves_well_formed_id() {
    let text = id_to_text(123456789);
    assert_eq!(text.len(), 25);
    let path = format!("/{}", text);
    assert_eq!(route(HttpMethod::Get, &path), Route::GetItem(123456789));
}

#[test]
fn id_text_round_trip() {
    assert_eq!(parse_id(&id_to_text(0)), Some(0));
    assert_eq!(parse_id(&id_to_text(42)), Some(42));
    assert_eq!(parse_id(&id_to_text(u128::MAX)), Some(u128::MAX));
    assert_eq!(parse_id("not25chars"), None);
    assert_eq!(parse_id(""), None);
    assert_eq!(parse_id("!!!!!!!!!!!!!!!!!!!!!!!!!"), None);
}

#[test]
fn get_unused_well_formed_id_is_not_found() {
    let st = SharedState::open(String::from("/tmp/capture_store_test_nf"));
    let text = id_to_text(987654321);
    match route(HttpMethod::Get, &format!("/{}", text)) {
        Route::GetItem(id) => match st.get_item(id) {
            GetOutcome::NotFound => {},
            GetOutcome::Content { .. } => panic!("an unused id must resolve to not-found"),
        },
        _ => panic!("a well-formed id must route to a fetch"),
    }
}

#[test]
fn streamed_post_commits_hello_world() {
    let mut st = SharedState::open(String::from("/tmp/capture_store_test_post"));
    let mut packet = st.begin_stream();
    packet.append(&b"hello ".to_vec());
    let first = packet.update();
    assert_eq!(first.words, 1);
    assert_eq!(first.chars, 6);
    packet.append(&b"world".to_vec());
    let second = packet.update();
    assert_eq!(second.terse, "hello world");
    assert_eq!(second.words, 2);
    assert_eq!(second.chars, 11);

    let committed = st.end_stream(&mut packet).expect("commit must succeed");
    assert_eq!(committed.id, packet.id);
    assert!(committed.hash.is_some());

    // the committed entry is addressable under the id returned to the client
    let path = format!("/{}", id_to_text(committed.id));
    match route(HttpMethod::Get, &path) {
        Route::GetItem(id) => {
            assert_eq!(id, committed.id);
            match st.get_item(id) {
                GetOutcome::Content { bytes, content_type } => {
                    assert_eq!(bytes.as_slice(), b"hello world");
                    assert_eq!(content_type, "text/plain");
                },
                GetOutcome::NotFound => panic!("committed content must be served"),
            }
        },
        _ => panic!("the returned id must route to a fetch"),
    }
}

#[test]
fn placeholder_resolves_in_place_with_stable_id() {
    let mut st = SharedState::open(String::from("/tmp/capture_store_test_stable"));
    let mut packet = st.begin_stream();
    // pending entry is visible at once, without a hash
    let pending_hash = st.view.lookup(packet.id).expect("placeholder visible").hash.clone();
    assert!(pending_hash.is_none());
    packet.append(&b"data".to_vec());
    let committed = st.end_stream(&mut packet).expect("commit must succeed");
    assert_eq!(committed.id, packet.id);
    // the same id now carries the final hash; no duplicate item appeared
    let resolved = st.view.lookup(packet.id).expect("resolved item visible");
    assert_eq!(resolved.hash.clone().unwrap(), committed.hash.clone().unwrap());
    assert_eq!(st.view.items.len(), 1);
}

#[test]
fn tailer_restart_republishes_nothing() {
    let mut log = FrameLog::open();
    log.append(String::from("clipboard"), None, None);
    log.append(String::from("clipboard"), None, None);

    let mut b = FanOut::new();
    let mut view = ViewProjection::new();
    let (_, sub) = b.subscribe();
    let cursor = tailer_step(&log, &mut b, &mut view, None);
    let first_batch = b.take_pending(sub);
    assert_eq!(first_batch.len(), 2);

    // the tailer stops; the log grows; a new tailer resumes from the cursor
    let f3 = log.append(String::from("command"), None, None);
    let cursor2 = tailer_step(&log, &mut b, &mut view, cursor);
    let second_batch = b.take_pending(sub);
    assert_eq!(second_batch.len(), 1);
    assert_eq!(second_batch[0].id, f3.id);
    for old in &first_batch {
        assert!(second_batch.iter().all(|f| f.id != old.id));
    }

    // nothing new: the cursor holds and nothing is republished
    let cursor3 = tailer_step(&log, &mut b, &mut view, cursor2);
    assert_eq!(cursor3, cursor2);
    assert!(b.take_pending(sub).is_empty());

    // the tailer also projected every frame, exactly once
    assert_eq!(view.items.len(), 3);
    assert!(view.lookup(f3.id).is_some());
}

#[test]
fn stack_children_content_concatenates() {
    let mut st = SharedState::open(String::from("/tmp/capture_store_test_stack"));
    let stack = st.log.append(String::from("stack"), None, None);
    st.merge(&stack.duplicate());

    st.select(Some(stack.id));
    let mut p1 = st.begin_stream();
    p1.append(&b"first".to_vec());
    st.end_stream(&mut p1).unwrap();

    st.select(Some(stack.id));
    let mut p2 = st.begin_stream();
    p2.append(&b"second".to_vec());
    st.end_stream(&mut p2).unwrap();

    // selection was cleared by each begin
    assert_eq!(st.get_curr_stack(), None);

    let parts = st.stack_content(stack.id);
    assert_eq!(parts.len(), 2);
    assert_eq!(parts[0].as_slice(), b"first");
    assert_eq!(parts[1].as_slice(), b"second");
}

#[test]
fn parse_command_splits_program_and_args() {
    let (program, args) = parse_command("ls -la /tmp").unwrap();
    assert_eq!(program, "ls");
    assert_eq!(args, vec![String::from("-la"), String::from("/tmp")]);

    let (program, args) = parse_command("echo 'a b'").unwrap();
    assert_eq!(program, "echo");
    assert_eq!(args, vec![String::from("a b")]);

    // erroneous input (unclosed quote) is told apart from a line that
    // splits cleanly into no words
    assert_eq!(parse_command("echo 'oops"), Err(CommandError::Unparseable));
    assert_eq!(parse_command(""), Err(CommandError::NoProgram));
    assert_eq!(parse_command("   "), Err(CommandError::NoProgram));
}

#[test]
fn mime_inference_and_content_types() {
    let png = vec![0x89u8, 0x50, 0x4e, 0x47, 0x0d, 0x0a];
    let (m, name) = infer_mime_type(&png, MimeType::TextPlain);
    assert_eq!(m, MimeType::ImagePng);
    assert_eq!(name, "Image");
    let (m, name) = infer_mime_type(&b"plain".to_vec(), MimeType::TextPlain);
    assert_eq!(m, MimeType::TextPlain);
    assert_eq!(name, "Text");
}

#[test]
fn served_content_type_follows_stored_mime() {
    let mut st = SharedState::open(String::from("/tmp/capture_store_test_ct"));
    let h = st
        .cache
        .put(vec![0x89u8, 0x50, 0x4e, 0x47], MimeType::ImagePng, String::from("Image"))
        .unwrap();
    let fr = st.log.append(String::from("clipboard"), None, Some(h));
    st.merge(&fr);
    match st.get_item(fr.id) {
        GetOutcome::Content { bytes, content_type } => {
            assert_eq!(bytes, vec![0x89u8, 0x50, 0x4e, 0x47]);
            assert_eq!(content_type, "image/png");
        },
        GetOutcome::NotFound => panic!("a committed frame's content must be served"),
    }
}

#[test]
fn terse_truncates_at_one_hundred_chars() {
    let mut st = SharedState::open(String::from("/tmp/capture_store_test_terse"));
    let mut packet = st.begin_stream();
    let long: String = "a".repeat(150);
    packet.append(&long.clone().into_bytes());
    let update = packet.update();
    assert_eq!(update.chars, 150);
    assert_eq!(update.words, 1);
    assert_eq!(update.terse.chars().count(), 100);
    assert_eq!(update.terse, long[..100]);
}

#[test]
fn empty_blob_round_trips() {
    let mut cache = BlobCache::open(String::from("/tmp/capture_store_test_empty"));
    let h = cache
        .put(Vec::new(), MimeType::TextPlain, String::from("Text"))
        .unwrap();
    let got = cache.get_stream(&h).expect("empty blob must be stored");
    assert!(got.is_empty());
}

#[test]
fn word_count_handles_mixed_whitespace() {
    let mut st = SharedState::open(String::from("/tmp/capture_store_test_words"));
    let mut packet = st.begin_stream();
    packet.append(&b"  one\ttwo\nthree  four \r".to_vec());
    let update = packet.update();
    assert_eq!(update.words, 4);
    let mut packet2 = st.begin_stream();
    packet2.append(&b"   \t\n".to_vec());
    assert_eq!(packet2.update().words, 0);

    // Unicode whitespace splits too: vertical tab, and a no-break space
    let mut packet3 = st.begin_stream();
    packet3.append(&b"a\x0bb".to_vec());
    assert_eq!(packet3.update().words, 2);
    let mut packet4 = st.begin_stream();
    packet4.append(&"c\u{00A0}d".to_string().into_bytes());
    assert_eq!(packet4.update().words, 2);
}
