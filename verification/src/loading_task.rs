//! Waiting for programs that other workers load.

use std::sync::{Condvar, Mutex, MutexGuard};
use vstd::prelude::*;

verus! {

/// `std::sync::Mutex`.
#[verifier::external_type_specification]
#[verifier::external_body]
#[verifier::reject_recursive_types(T)]
pub struct ExMutex<T: ?Sized>(Mutex<T>);

/// `std::sync::MutexGuard`.
#[verifier::external_type_specification]
#[verifier::external_body]
#[verifier::reject_recursive_types(T)]
pub struct ExMutexGuard<'a, T: ?Sized + 'a>(MutexGuard<'a, T>);

/// `std::sync::Condvar`.
#[verifier::external_type_specification]
#[verifier::external_body]
pub struct ExCondvar(Condvar);

/// Tells one state of the loading tasks from the next: it changes whenever
/// a loading task is finished.
#[derive(Clone, Copy, Debug, PartialEq, Eq, Structural)]
pub struct LoadingTaskCookie(pub u64);

impl LoadingTaskCookie {
    pub fn new() -> (cookie: Self)
        ensures
            cookie.0 == 0,
    {
        LoadingTaskCookie(0)
    }

    /// The cookie that follows this one: the next number, and 0 after the
    /// greatest.
    pub open spec fn next(self) -> LoadingTaskCookie {
        LoadingTaskCookie(
            if self.0 == u64::MAX {
                0
            } else {
                (self.0 + 1) as u64
            },
        )
    }

    /// Moves on to the next cookie, which is never the one before.
    pub fn update(&mut self)
        ensures
            *final(self) == old(self).next(),
            *final(self) != *old(self),
    {
        self.0 = self.0.wrapping_add(1);
    }
}

impl Default for LoadingTaskCookie {
    fn default() -> (cookie: Self)
        ensures
            cookie.0 == 0,
    {
        LoadingTaskCookie(0)
    }
}

/// The cookie that a guard of the mutex gives access to.
pub uninterp spec fn guarded_cookie(guard: MutexGuard<LoadingTaskCookie>) -> LoadingTaskCookie;

/// Suspends the thread in case no cooprative loading task was assigned
///
/// The cookie is shared by all workers, so nothing is known of it but while
/// the mutex is held.
#[derive(Debug)]
pub struct LoadingTaskWaiter {
    cookie: Mutex<LoadingTaskCookie>,
    cond: Condvar,
}

/// `Mutex::new`: a mutex that holds the cookie.
#[verifier::external_body]
fn new_cookie_mutex(cookie: LoadingTaskCookie) -> Mutex<LoadingTaskCookie> {
    Mutex::new(cookie)
}

/// `Condvar::new`.
#[verifier::external_body]
fn new_condvar() -> Condvar {
    Condvar::new()
}

/// `Mutex::lock`: waits for the mutex and returns its guard. The mutex gets
/// poisoned only if a thread panics while it holds the guard, which none of
/// the functions here do; it is private to the waiter.
#[verifier::external_body]
fn lock_cookie<'a>(mutex: &'a Mutex<LoadingTaskCookie>) -> MutexGuard<'a, LoadingTaskCookie> {
    mutex.lock().unwrap()
}

/// Reading through a `MutexGuard`: the cookie that it guards.
#[verifier::external_body]
fn read_guard(guard: &MutexGuard<LoadingTaskCookie>) -> (cookie: LoadingTaskCookie)
    ensures
        cookie == guarded_cookie(*guard),
{
    **guard
}

/// Writing through a `MutexGuard`: it guards the cookie written.
#[verifier::external_body]
fn write_guard(guard: &mut MutexGuard<LoadingTaskCookie>, cookie: LoadingTaskCookie)
    ensures
        guarded_cookie(*final(guard)) == cookie,
{
    **guard = cookie;
}

/// `Condvar::wait_while` with the condition that the cookie is the given
/// one: gives the mutex up and blocks until the cookie is another one, then
/// returns with the mutex held again.
#[verifier::external_body]
fn wait_while_equal<'a>(
    cond: &Condvar,
    guard: MutexGuard<'a, LoadingTaskCookie>,
    cookie: LoadingTaskCookie,
) -> (woken: MutexGuard<'a, LoadingTaskCookie>)
    ensures
        guarded_cookie(woken) != cookie,
{
    cond.wait_while(guard, |current| *current == cookie).unwrap()
}

/// `Condvar::notify_all`: wakes up all threads that wait.
#[verifier::external_body]
fn notify_all(cond: &Condvar) {
    cond.notify_all();
}

impl LoadingTaskWaiter {
    pub fn new() -> Self {
        LoadingTaskWaiter {
            cookie: new_cookie_mutex(LoadingTaskCookie::new()),
            cond: new_condvar(),
        }
    }

    /// The cookie as it is now. Other workers may change it at any time.
    pub fn cookie(&self) -> LoadingTaskCookie {
        let guard = lock_cookie(&self.cookie);
        read_guard(&guard)
    }

    /// Moves the cookie on and wakes all workers that wait for that.
    pub fn notify(&self) {
        let mut guard = lock_cookie(&self.cookie);
        let mut cookie = read_guard(&guard);
        cookie.update();
        write_guard(&mut guard, cookie);
        notify_all(&self.cond);
    }

    /// Waits until the cookie is no longer the given one, and returns the
    /// one that it is then.
    pub fn wait(&self, cookie: LoadingTaskCookie) -> (current: LoadingTaskCookie)
        ensures
            current != cookie,
    {
        let guard = lock_cookie(&self.cookie);
        let guard = wait_while_equal(&self.cond, guard, cookie);
        read_guard(&guard)
    }
}

impl Default for LoadingTaskWaiter {
    fn default() -> Self {
        LoadingTaskWaiter::new()
    }
}

} // verus!
