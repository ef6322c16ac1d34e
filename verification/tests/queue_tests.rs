use agent_core::queue::{Queue, QueueError};

fn key() -> Vec<u8> {
    (100u8..132u8).collect()
}

fn temp_db() -> String {
    format!("/tmp/agent_queue_test_{}.sqlite", rand::random::<u64>())
}

fn open_queue(path: &str) -> Queue {
    Queue::open(path, key(), "device-abc").unwrap()
}

#[test]
fn rejects_short_key() {
    let r = Queue::open(&temp_db(), vec![0u8; 16], "device-abc");
    assert!(matches!(r, Err(QueueError::BadKey)));
}

#[test]
fn fetch_returns_enqueues_in_insertion_order() {
    let path = temp_db();
    let mut q = open_queue(&path);
    let id1 = q.enqueue_json(&b"one".to_vec(), 1000).unwrap();
    let id2 = q.enqueue_json(&b"two".to_vec(), 2000).unwrap();
    let id3 = q.enqueue_json(&b"three".to_vec(), 3000).unwrap();
    assert!(id1 < id2 && id2 < id3);
    let batch = q.fetch_batch(10).unwrap();
    assert_eq!(batch.len(), 3);
    assert_eq!(batch[0], (id1, b"one".to_vec()));
    assert_eq!(batch[1], (id2, b"two".to_vec()));
    assert_eq!(batch[2], (id3, b"three".to_vec()));
}

#[test]
fn equal_timestamps_keep_id_order() {
    let path = temp_db();
    let mut q = open_queue(&path);
    let id1 = q.enqueue_json(&b"a".to_vec(), 5000).unwrap();
    let id2 = q.enqueue_json(&b"b".to_vec(), 5000).unwrap();
    let batch = q.fetch_batch(10).unwrap();
    assert_eq!(batch[0].0, id1);
    assert_eq!(batch[1].0, id2);
}

#[test]
fn deleted_records_never_reappear() {
    let path = temp_db();
    let mut q = open_queue(&path);
    let id1 = q.enqueue_json(&b"a".to_vec(), 1).unwrap();
    let id2 = q.enqueue_json(&b"b".to_vec(), 2).unwrap();
    let id3 = q.enqueue_json(&b"c".to_vec(), 3).unwrap();
    let n = q.delete_ids(&vec![id1, id2]).unwrap();
    assert_eq!(n, 2);
    let batch = q.fetch_batch(10).unwrap();
    assert_eq!(batch.len(), 1);
    assert_eq!(batch[0], (id3, b"c".to_vec()));
    assert_eq!(q.queue_len().unwrap(), 1);
}

#[test]
fn interleaved_fetch_delete_ships_exactly_once() {
    let path = temp_db();
    let mut q = open_queue(&path);
    let mut shipped: Vec<Vec<u8>> = Vec::new();
    let mut t: u64 = 1;
    for chunk in [vec!["a", "b"], vec!["c"], vec!["d", "e"]] {
        for body in &chunk {
            q.enqueue_json(&body.as_bytes().to_vec(), t).unwrap();
            t += 1;
        }
        let batch = q.fetch_batch(1).unwrap();
        let ids: Vec<i64> = batch.iter().map(|(id, _)| *id).collect();
        for (_, pt) in &batch {
            shipped.push(pt.clone());
        }
        q.delete_ids(&ids).unwrap();
    }
    loop {
        let batch = q.fetch_batch(1).unwrap();
        if batch.is_empty() {
            break;
        }
        let ids: Vec<i64> = batch.iter().map(|(id, _)| *id).collect();
        for (_, pt) in &batch {
            shipped.push(pt.clone());
        }
        q.delete_ids(&ids).unwrap();
    }
    let texts: Vec<&[u8]> = shipped.iter().map(|v| v.as_slice()).collect();
    assert_eq!(texts, vec![&b"a"[..], b"b", b"c", b"d", b"e"]);
    assert_eq!(q.queue_len().unwrap(), 0);
}

#[test]
fn queue_survives_reopen() {
    let path = temp_db();
    {
        let mut q = open_queue(&path);
        q.enqueue_json(&b"durable".to_vec(), 7).unwrap();
    }
    let q2 = open_queue(&path);
    let batch = q2.fetch_batch(10).unwrap();
    assert_eq!(batch.len(), 1);
    assert_eq!(batch[0].1, b"durable".to_vec());
}

#[test]
fn peek_desc_lists_newest_first() {
    let path = temp_db();
    let mut q = open_queue(&path);
    q.enqueue_json(&b"old".to_vec(), 1).unwrap();
    q.enqueue_json(&b"mid".to_vec(), 2).unwrap();
    q.enqueue_json(&b"new".to_vec(), 3).unwrap();
    let peek = q.peek_decrypted_desc(2).unwrap();
    assert_eq!(peek, vec![b"new".to_vec(), b"mid".to_vec()]);
    let asc = q.peek_decrypted(2).unwrap();
    assert_eq!(asc, vec![b"old".to_vec(), b"mid".to_vec()]);
}

#[test]
fn delete_nothing_deletes_nothing() {
    let path = temp_db();
    let mut q = open_queue(&path);
    q.enqueue_json(&b"x".to_vec(), 1).unwrap();
    assert_eq!(q.delete_ids(&Vec::new()).unwrap(), 0);
    assert_eq!(q.queue_len().unwrap(), 1);
}

#[test]
fn deleting_distinct_present_ids_removes_exactly_that_many() {
    let path = temp_db();
    let mut q = open_queue(&path);
    let mut ids = Vec::new();
    for i in 0..5u64 {
        ids.push(q.enqueue_json(&format!("r{}", i).into_bytes(), i + 1).unwrap());
    }
    let n = q.delete_ids(&vec![ids[1], ids[3]]).unwrap();
    assert_eq!(n, 2);
    assert_eq!(q.queue_len().unwrap(), 3);
    let left: Vec<i64> = q.fetch_batch(10).unwrap().iter().map(|(id, _)| *id).collect();
    assert_eq!(left, vec![ids[0], ids[2], ids[4]]);
}

#[test]
fn foreign_key_cannot_read_records() {
    let path = temp_db();
    {
        let mut q = open_queue(&path);
        q.enqueue_json(&b"secret".to_vec(), 1).unwrap();
    }
    let mut other_key = key();
    other_key[31] ^= 0x55;
    let q2 = Queue::open(&path, other_key, "device-abc").unwrap();
    assert!(matches!(q2.fetch_batch(10), Err(QueueError::Crypto(_))));
}

#[test]
fn foreign_device_cannot_read_records() {
    let path = temp_db();
    {
        let mut q = open_queue(&path);
        q.enqueue_json(&b"secret".to_vec(), 1).unwrap();
    }
    let q2 = Queue::open(&path, key(), "device-zzz").unwrap();
    assert!(matches!(q2.fetch_batch(10), Err(QueueError::Crypto(_))));
}
