use crossbeam_channel::{bounded, unbounded, Receiver, Sender};
use ustreamer::cpu_pool::{encode_jpeg_pool, workers_full, EncodePool};

type Job = (u32, Vec<u8>, usize, usize, bool, u8);
type Done = (Vec<u8>, u32);

fn pool(workers: usize) -> (EncodePool, Receiver<Job>, Sender<Done>) {
    let (tx, jobs) = bounded::<Job>(workers);
    let (done, rx) = unbounded::<Done>();
    (EncodePool::new(tx, rx, workers), jobs, done)
}

#[test]
fn results_come_out_in_submission_order() {
    let (mut pool, jobs, done) = pool(4);
    for i in 0..4u8 {
        assert!(pool.submit(vec![i + 1], 1, 1, false, 80));
    }
    assert!(workers_full(&pool));
    assert_eq!(pool.busy(), 4);
    let mut taken: Vec<Job> = jobs.try_iter().collect();
    assert_eq!(taken.iter().map(|j| j.0).collect::<Vec<u32>>(), vec![0, 1, 2, 3]);
    assert_eq!(taken[2].1, vec![3]);
    taken.reverse();
    for job in taken {
        done.send((vec![100 + job.1[0]], job.0)).unwrap();
    }
    let mut out = Vec::new();
    for _ in 0..4 {
        out.push(encode_jpeg_pool(&mut pool, Vec::new(), 0, 0, false, 80));
    }
    assert_eq!(out, vec![vec![101], vec![102], vec![103], vec![104]]);
    assert_eq!(pool.busy(), 0);
    assert_eq!(pool.current(), 4);
    assert!(encode_jpeg_pool(&mut pool, Vec::new(), 0, 0, false, 80).is_empty());
}

#[test]
fn release_waits_for_the_due_result() {
    let (mut pool, jobs, done) = pool(2);
    assert!(encode_jpeg_pool(&mut pool, vec![1], 2, 3, true, 70).is_empty());
    assert!(encode_jpeg_pool(&mut pool, vec![2], 2, 3, true, 70).is_empty());
    let first = jobs.recv().unwrap();
    let second = jobs.recv().unwrap();
    assert_eq!((first.0, first.2, first.3, first.4, first.5), (0, 2, 3, true, 70));
    done.send((vec![22], second.0)).unwrap();
    assert!(encode_jpeg_pool(&mut pool, Vec::new(), 0, 0, false, 0).is_empty());
    assert_eq!(pool.busy(), 1);
    assert_eq!(pool.current(), 0);
    done.send((vec![11], first.0)).unwrap();
    assert_eq!(encode_jpeg_pool(&mut pool, Vec::new(), 0, 0, false, 0), vec![11]);
    assert_eq!(encode_jpeg_pool(&mut pool, Vec::new(), 0, 0, false, 0), vec![22]);
    assert_eq!(pool.current(), 2);
}

#[test]
fn saturated_pool_sheds_frames() {
    let (mut pool, jobs, _done) = pool(2);
    assert!(!workers_full(&pool));
    assert!(pool.submit(vec![1], 1, 1, false, 80));
    assert!(pool.submit(vec![2], 1, 1, false, 80));
    assert!(workers_full(&pool));
    assert!(!pool.submit(vec![3], 1, 1, false, 80));
    assert!(!pool.submit(Vec::new(), 1, 1, false, 80));
    assert_eq!(pool.next(), 2);
    assert_eq!(jobs.try_iter().count(), 2);
}

#[test]
fn shed_frames_take_no_sequence_number() {
    let (mut pool, jobs, done) = pool(1);
    assert!(pool.submit(vec![1], 1, 1, false, 80));
    assert!(!pool.submit(vec![2], 1, 1, false, 80));
    let job = jobs.recv().unwrap();
    done.send((vec![9], job.0)).unwrap();
    assert_eq!(encode_jpeg_pool(&mut pool, vec![3], 1, 1, false, 80), vec![9]);
    assert!(jobs.try_recv().is_err());
    assert!(encode_jpeg_pool(&mut pool, vec![4], 1, 1, false, 80).is_empty());
    let job = jobs.try_recv().unwrap();
    assert_eq!(job.0, 1);
    assert_eq!(job.1, vec![4]);
}

#[test]
fn closed_channel_drops_the_frame() {
    let (mut pool, jobs, _done) = pool(2);
    drop(jobs);
    assert!(!pool.submit(vec![1], 1, 1, false, 80));
    assert_eq!(pool.busy(), 0);
    assert_eq!(pool.next(), 0);
}

#[test]
fn completions_fill_the_buffer_directly() {
    let (mut pool, _jobs, _done) = pool(3);
    pool.complete(2, vec![3]);
    pool.complete(1, vec![2]);
    assert_eq!(pool.release(), None);
    pool.complete(0, vec![1]);
    assert_eq!(pool.release(), Some(vec![1]));
    assert_eq!(pool.release(), Some(vec![2]));
    assert_eq!(pool.release(), Some(vec![3]));
    assert_eq!(pool.release(), None);
    assert_eq!(pool.drain(), 0);
}

#[test]
fn job_carries_the_frame_under_the_next_number() {
    let (mut pool, _jobs, _done) = pool(2);
    assert!(pool.admits(&[1]));
    assert!(!pool.admits(&[]));
    assert_eq!(pool.job(vec![7, 8], 4, 2, true, 90), (0, vec![7, 8], 4, 2, true, 90));
    pool.offered(false);
    assert_eq!((pool.next(), pool.busy()), (0, 0));
    pool.offered(true);
    assert_eq!((pool.next(), pool.busy()), (1, 1));
    assert_eq!(pool.job(vec![9], 1, 1, false, 1).0, 1);
    pool.offered(true);
    assert!(!pool.admits(&[1]));
}
