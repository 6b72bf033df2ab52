use iris::scheduler::ReductionLimiter;
use std::future::Future;
use std::pin::Pin;
use std::task::{Context, Poll, Waker};

/// A future driven under the limiter's budget.
struct Limited<F: Future + Unpin>(ReductionLimiter<F>);

impl<F: Future + Unpin> Future for Limited<F> {
    type Output = F::Output;

    fn poll(mut self: Pin<&mut Self>, cx: &mut Context<'_>) -> Poll<Self::Output> {
        let this = self.as_mut().get_mut();
        if !this.0.admit_poll() {
            cx.waker().wake_by_ref();
            return Poll::Pending;
        }
        Pin::new(this.0.inner_mut()).poll(cx)
    }
}

#[test]
fn limiter_forces_pending_before_ready() {
    struct Inner {
        polls_left: usize,
    }
    impl Future for Inner {
        type Output = &'static str;
        fn poll(mut self: Pin<&mut Self>, _cx: &mut Context<'_>) -> Poll<Self::Output> {
            if self.polls_left == 0 {
                Poll::Ready("done")
            } else {
                self.polls_left -= 1;
                Poll::Pending
            }
        }
    }

    // inner requires 2 Poll::Pending calls before it becomes Ready
    let inner = Inner { polls_left: 2 };
    let wrapped = Limited(ReductionLimiter::new(inner, 1)); // budget = 1

    let waker = Waker::noop();
    let mut cx = Context::from_waker(waker);
    let mut pinned = Box::pin(wrapped);

    // 1st poll -> limiter allows inner to be polled (inner -> Pending)
    assert_eq!(pinned.as_mut().poll(&mut cx), Poll::Pending);

    // 2nd poll -> limiter detects budget reached and returns Pending WITHOUT polling inner
    assert_eq!(pinned.as_mut().poll(&mut cx), Poll::Pending);

    let mut completed = false;
    for _ in 0..10 {
        match pinned.as_mut().poll(&mut cx) {
            Poll::Ready(_) => {
                completed = true;
                break;
            }
            Poll::Pending => continue,
        }
    }
    assert!(completed, "inner future did not complete within expected polls");
}

#[test]
fn budget_of_zero_acts_as_one() {
    let mut l = ReductionLimiter::new((), 0);
    assert!(l.admit_poll());
    assert!(!l.admit_poll());
    assert!(l.admit_poll());
}

#[test]
fn budget_allows_that_many_polls_in_a_row() {
    let mut l = ReductionLimiter::new((), 3);
    assert!(l.admit_poll());
    assert!(l.admit_poll());
    assert!(l.admit_poll());
    assert!(!l.admit_poll());
    assert!(l.admit_poll());
}
