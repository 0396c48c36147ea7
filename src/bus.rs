use vstd::prelude::*;

verus! {

/// The two-wire bus the chip sits on, as the driver uses it: each call is one
/// blocking transaction with the device at a 7-bit `address`.
///
/// An implementation keeps `history`, the transactions it has completed, in
/// order. A `write` that succeeds has put exactly `bytes` on the bus to
/// `address`; a `write_read` that succeeds has written exactly `bytes` and
/// filled `buffer` with the device's answer, leaving its length alone. A call
/// that fails has completed nothing. Whether a call succeeds is the bus's own
/// business: nothing is promised of that.
///
/// The driver's contracts are stated over `history`, so a driver operation
/// can only meet them by making the calls. An implementation verified here
/// defines `history` and proves the contracts below; one written in plain
/// Rust (over an embedded-hal bus, say) keeps the unspecified default and
/// must behave as described above without a proof.
pub trait Bus {
    /// What a failed transaction reports.
    type Error;

    /// The transactions completed so far, oldest first; unspecified unless
    /// the implementation defines it.
    closed spec fn history(&self) -> Seq<Transfer> {
        arbitrary()
    }

    /// Writes `bytes` to the device at `address`.
    fn write(&mut self, address: u8, bytes: &[u8]) -> (r: Result<(), Self::Error>)
        ensures
            r is Ok ==> final(self).history() == old(self).history().push(
                Transfer::Write { address, bytes: bytes@ },
            ),
            r is Err ==> final(self).history() == old(self).history(),
    ;

    /// Writes `bytes` to the device at `address`, then reads `buffer.len()`
    /// bytes from it into `buffer`.
    fn write_read(&mut self, address: u8, bytes: &[u8], buffer: &mut [u8]) -> (r: Result<
        (),
        Self::Error,
    >)
        ensures
            final(buffer)@.len() == old(buffer)@.len(),
            r is Ok ==> final(self).history() == old(self).history().push(
                Transfer::WriteRead { address, bytes: bytes@, reply: final(buffer)@ },
            ),
            r is Err ==> final(self).history() == old(self).history(),
    ;
}

/// A bus transaction that completed.
pub enum Transfer {
    /// `bytes` were written to the device at `address`.
    Write { address: u8, bytes: Seq<u8> },
    /// `bytes` were written to the device at `address`, which answered `reply`.
    WriteRead { address: u8, bytes: Seq<u8>, reply: Seq<u8> },
}

/// Writing `value` into `register` of the device at `address`.
pub open spec fn register_write(address: u8, register: u8, value: u8) -> Transfer {
    Transfer::Write { address, bytes: seq![register, value] }
}

/// Reading `register` of the device at `address`, which held `value`.
pub open spec fn register_read(address: u8, register: u8, value: u8) -> Transfer {
    Transfer::WriteRead { address, bytes: seq![register], reply: seq![value] }
}

/// From `before` to `after`, the first transfers of `plan` completed and the
/// next one failed.
pub open spec fn stopped_in(before: Seq<Transfer>, after: Seq<Transfer>, plan: Seq<Transfer>) -> bool {
    &&& before.len() <= after.len() < before.len() + plan.len()
    &&& after == before + plan.take(after.len() - before.len())
}

/// Carrying out `first` and then failing in `rest` is failing in `first + rest`.
pub proof fn lemma_stopped_later(
    before: Seq<Transfer>,
    after: Seq<Transfer>,
    first: Seq<Transfer>,
    rest: Seq<Transfer>,
)
    requires
        stopped_in(before + first, after, rest),
    ensures
        stopped_in(before, after, first + rest),
{
    let k = after.len() - (before + first).len();
    assert((before + first) + rest.take(k) =~= before + (first + rest).take(first.len() + k));
}

/// Failing in `first` is failing in `first + rest`.
pub proof fn lemma_stopped_sooner(
    before: Seq<Transfer>,
    after: Seq<Transfer>,
    first: Seq<Transfer>,
    rest: Seq<Transfer>,
)
    requires
        stopped_in(before, after, first),
    ensures
        stopped_in(before, after, first + rest),
{
    let k = after.len() - before.len();
    assert(first.take(k) =~= (first + rest).take(k));
}

/// Carrying out `done`, then failing in `step`, is failing in `done + step + rest`.
pub proof fn lemma_stopped_within(
    before: Seq<Transfer>,
    after: Seq<Transfer>,
    done: Seq<Transfer>,
    step: Seq<Transfer>,
    rest: Seq<Transfer>,
)
    requires
        stopped_in(before + done, after, step),
    ensures
        stopped_in(before, after, done + step + rest),
{
    lemma_stopped_later(before, after, done, step);
    lemma_stopped_sooner(before, after, done + step, rest);
}

} // verus!
