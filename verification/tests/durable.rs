use std::future::Future;
use std::pin::Pin;
use std::sync::{Arc, Mutex};
use std::task::{Context, Poll, Waker};

use zhensegg::store::{wait_durable, DurableGate, FileRing, Store, WaitDurable};

struct Wait {
    gate: Arc<Mutex<DurableGate<Waker>>>,
    inner: WaitDurable,
}

impl Future for Wait {
    type Output = ();

    fn poll(mut self: Pin<&mut Self>, cx: &mut Context<'_>) -> Poll<()> {
        let gate = self.gate.clone();
        let mut g = gate.lock().unwrap();
        if self.inner.poll(&mut g, cx.waker().clone()) {
            Poll::Ready(())
        } else {
            Poll::Pending
        }
    }
}

fn advance(gate: &Arc<Mutex<DurableGate<Waker>>>, pos: u64) {
    let woken = gate.lock().unwrap().advance(pos);
    for w in woken {
        w.wake();
    }
}

#[test]
fn gate_wakes_waiters_below_new_pos() {
    let gate = Arc::new(Mutex::new(DurableGate::new(0)));
    let rt = tokio::runtime::Builder::new_current_thread().enable_all().build().unwrap();
    rt.block_on(async {
        let g = gate.clone();
        let waiter = tokio::spawn(async move {
            Wait { gate: g, inner: wait_durable(100) }.await;
        });
        tokio::time::sleep(std::time::Duration::from_millis(10)).await;
        assert!(!waiter.is_finished(), "must not be ready before advance");
        advance(&gate, 99);
        tokio::time::sleep(std::time::Duration::from_millis(10)).await;
        assert!(!waiter.is_finished(), "target above new pos stays pending");
        advance(&gate, 150);
        tokio::time::timeout(std::time::Duration::from_secs(1), waiter).await.unwrap().unwrap();
    });
}

#[test]
fn test_file_ring_durable_gate_waits_for_fsync() {
    let mut ring = FileRing::create(1024 * 1024);
    let (off, len) = ring.append(b"t", b"durable").unwrap();
    let need = off + len as u64;
    let mut gate: DurableGate<u32> = DurableGate::new(ring.durable_pos());
    let mut wait = wait_durable(need);
    assert!(!wait.poll(&mut gate, 1));
    let mut c = ring.begin_flush();
    let _ = ring.next_write(&mut c);
    assert_eq!(gate.advance(ring.durable_pos()), vec![], "nothing is safe before the sync");
    let pos = ring.finish_flush(&c);
    assert_eq!(gate.advance(pos), vec![1]);
    assert!(wait.poll(&mut gate, 1));
    assert!(ring.durable_pos() >= need);
}

#[test]
fn positions_move_forward_only() {
    let mut gate: DurableGate<&str> = DurableGate::new(10);
    assert!(wait_durable(10).poll(&mut gate, "a"));
    let mut b = wait_durable(20);
    let mut c = wait_durable(15);
    let mut d = wait_durable(30);
    assert!(!b.poll(&mut gate, "b"));
    assert!(!b.poll(&mut gate, "b again"));
    assert!(!c.poll(&mut gate, "c"));
    assert!(!d.poll(&mut gate, "d"));
    assert_eq!(gate.advance(5), Vec::<&str>::new());
    assert_eq!(gate.pos(), 10);
    assert_eq!(gate.advance(20), vec!["b", "c"]);
    assert_eq!(gate.pos(), 20);
    assert_eq!(gate.advance(29), Vec::<&str>::new());
    assert_eq!(gate.advance(u64::MAX), vec!["d"]);
}
