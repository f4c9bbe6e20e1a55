//! Delayed pings: an agent asks to be pinged back after a delay with a
//! message. The pending pings are kept in the order they were scheduled;
//! times are milliseconds of a monotonic clock that the caller reads.
use vstd::prelude::*;

use crate::text::{append_chars, append_str, chars_eq, chars_of, decimal, decimal_vec, join, join_vec, slice_vec, string_of, views};

verus! {

/// Longest delay a ping may have, in seconds.
pub const MAX_DELAY_SECS: u64 = 3600;

/// Arguments of the ping tool: a delay and the message delivered after it.
#[derive(Debug)]
pub struct PingMeBackArgs {
    pub seconds: u64,
    pub message: String,
}

/// Arguments of the tool cancelling a ping.
#[derive(Debug)]
pub struct CancelPingArgs {
    pub id: String,
}

/// A pending ping.
#[derive(Debug)]
pub struct PendingPing {
    /// Identifier handed back to the agent.
    pub id: String,
    /// The message delivered when it fires.
    pub message: String,
    /// When it fires, in milliseconds of the monotonic clock.
    pub fires_at: u64,
    /// The delay that was asked for, in seconds (clamped).
    pub delay_secs: u64,
    /// When it was scheduled, in milliseconds since the Unix epoch.
    pub created_at: i64,
}

impl PendingPing {
    /// An identical copy.
    pub fn duplicate(&self) -> (r: Self)
        ensures
            r == *self,
    {
        PendingPing {
            id: self.id.clone(),
            message: self.message.clone(),
            fires_at: self.fires_at,
            delay_secs: self.delay_secs,
            created_at: self.created_at,
        }
    }
}

/// The pending pings.
#[derive(Debug)]
pub struct PingState {
    pings: Vec<PendingPing>,
}

impl View for PingState {
    type V = Seq<PendingPing>;

    closed spec fn view(&self) -> Seq<PendingPing> {
        self.pings@
    }
}

/// The pings with another id than `id`.
pub open spec fn without_id(v: Seq<PendingPing>, id: Seq<char>) -> Seq<PendingPing> {
    v.filter(|p: PendingPing| p.id@ != id)
}

/// The pings due at `now`.
pub open spec fn due(v: Seq<PendingPing>, now: u64) -> Seq<PendingPing> {
    v.filter(|p: PendingPing| p.fires_at <= now)
}

/// The pings not yet due at `now`.
pub open spec fn not_due(v: Seq<PendingPing>, now: u64) -> Seq<PendingPing> {
    v.filter(|p: PendingPing| p.fires_at > now)
}

/// Some ping has this id.
pub open spec fn has_id(v: Seq<PendingPing>, id: Seq<char>) -> bool {
    exists|i: int| 0 <= i < v.len() && v[i].id@ == id
}

/// `delay` capped at the longest delay.
pub open spec fn clamp_delay(delay: u64) -> u64 {
    if delay <= MAX_DELAY_SECS {
        delay
    } else {
        MAX_DELAY_SECS
    }
}

/// The ping scheduled at `now` with these values.
pub open spec fn scheduled(id: Seq<char>, message: Seq<char>, delay_secs: u64, now: u64, created_at: i64) -> (Seq<char>, Seq<char>, u64, u64, i64) {
    (id, message, (now + clamp_delay(delay_secs) * 1000) as u64, delay_secs, created_at)
}

/// A ping as its fields.
pub open spec fn ping_fields(p: PendingPing) -> (Seq<char>, Seq<char>, u64, u64, i64) {
    (p.id@, p.message@, p.fires_at, p.delay_secs, p.created_at)
}

/// The text form of a fresh random identifier (a UUID, 36 characters).
#[verifier::external_body]
fn random_uuid_text() -> (r: String)
    ensures
        r@.len() == 36,
{
    uuid::Uuid::new_v4().to_string()
}

impl PingState {
    /// No pings.
    pub fn new() -> (r: Self)
        ensures
            r@ == Seq::<PendingPing>::empty(),
    {
        PingState { pings: Vec::new() }
    }

    /// Schedule a ping with the given id at `now`; it fires after the delay,
    /// capped at the longest delay.
    pub fn add_with_id(&mut self, id: String, message: String, delay_secs: u64, now: u64, created_at: i64)
        requires
            now <= u64::MAX - MAX_DELAY_SECS * 1000,
        ensures
            final(self)@.len() == old(self)@.len() + 1,
            final(self)@.drop_last() == old(self)@,
            ping_fields(final(self)@.last()) == scheduled(id@, message@, delay_secs, now, created_at),
    {
        let d = if delay_secs <= MAX_DELAY_SECS {
            delay_secs
        } else {
            MAX_DELAY_SECS
        };
        let p = PendingPing { id, message, fires_at: now + d * 1000, delay_secs, created_at };
        self.pings.push(p);
        assert(self@.drop_last() =~= old(self)@);
    }

    /// Schedule a ping at `now` under a fresh identifier (the first eight
    /// characters of a random UUID), which is returned.
    pub fn add(&mut self, message: String, delay_secs: u64, now: u64, created_at: i64) -> (r: String)
        requires
            now <= u64::MAX - MAX_DELAY_SECS * 1000,
        ensures
            r@.len() == 8,
            final(self)@.len() == old(self)@.len() + 1,
            final(self)@.drop_last() == old(self)@,
            ping_fields(final(self)@.last()) == scheduled(r@, message@, delay_secs, now, created_at),
    {
        let u = random_uuid_text();
        let cs = chars_of(u.as_str());
        let id = string_of(&slice_vec(&cs, 0, 8));
        let id2 = id.clone();
        self.add_with_id(id, message, delay_secs, now, created_at);
        id2
    }

    /// Cancel the pings with this id; whether one was found.
    pub fn cancel(&mut self, id: &str) -> (r: bool)
        ensures
            final(self)@ == without_id(old(self)@, id@),
            r == has_id(old(self)@, id@),
    {
        let mut old_pings: Vec<PendingPing> = Vec::new();
        std::mem::swap(&mut old_pings, &mut self.pings);
        let ghost orig = old_pings@;
        let n = old_pings.len();
        let target = chars_of(id);
        let mut found = false;
        let mut k: usize = 0;
        proof {
            reveal(Seq::filter);
            assert(orig.take(0).filter(|p: PendingPing| p.id@ != id@) =~= Seq::<PendingPing>::empty());
        }
        while k < n
            invariant
                n == orig.len(),
                k <= orig.len(),
                old_pings@ == orig.skip(k as int),
                target@ == id@,
                self.pings@ == orig.take(k as int).filter(|p: PendingPing| p.id@ != id@),
                found == exists|i: int| 0 <= i < k && orig[i].id@ == id@,
            decreases n - k,
        {
            let p = old_pings.remove(0);
            proof {
                reveal(Seq::filter);
                assert(p == orig[k as int]);
                assert(orig.take(k + 1).drop_last() =~= orig.take(k as int));
                assert(orig.take(k + 1).last() == orig[k as int]);
                assert(old_pings@ =~= orig.skip(k + 1));
            }
            let pc = chars_of(p.id.as_str());
            if chars_eq(&pc, &target) {
                found = true;
            } else {
                self.pings.push(p);
            }
            k = k + 1;
        }
        assert(orig.take(k as int) =~= orig);
        found
    }

    /// When the next ping fires: the earliest firing time, if any ping is
    /// pending.
    pub fn next_fire_time(&self) -> (r: Option<u64>)
        ensures
            match r {
                Some(t) => (exists|i: int| 0 <= i < self@.len() && self@[i].fires_at == t) && forall|i: int|
                    0 <= i < self@.len() ==> t <= #[trigger] self@[i].fires_at,
                None => self@.len() == 0,
            },
    {
        if self.pings.len() == 0 {
            return None;
        }
        let mut best: u64 = self.pings[0].fires_at;
        assert(self@[0].fires_at == best);
        let mut i: usize = 1;
        while i < self.pings.len()
            invariant
                1 <= i <= self.pings.len(),
                exists|j: int| 0 <= j < i && self@[j].fires_at == best,
                forall|j: int| 0 <= j < i ==> best <= #[trigger] self@[j].fires_at,
            decreases self.pings.len() - i,
        {
            if self.pings[i].fires_at < best {
                best = self.pings[i].fires_at;
            }
            i = i + 1;
        }
        Some(best)
    }

    /// Remove and return the pings due at `now`, in order; the others stay,
    /// in order.
    pub fn pop_fired(&mut self, now: u64) -> (r: Vec<PendingPing>)
        ensures
            r@ == due(old(self)@, now),
            final(self)@ == not_due(old(self)@, now),
    {
        let mut old_pings: Vec<PendingPing> = Vec::new();
        std::mem::swap(&mut old_pings, &mut self.pings);
        let ghost orig = old_pings@;
        let n = old_pings.len();
        let mut fired: Vec<PendingPing> = Vec::new();
        let mut k: usize = 0;
        proof {
            reveal(Seq::filter);
            assert(orig.take(0).filter(|p: PendingPing| p.fires_at <= now) =~= Seq::<PendingPing>::empty());
            assert(orig.take(0).filter(|p: PendingPing| p.fires_at > now) =~= Seq::<PendingPing>::empty());
        }
        while k < n
            invariant
                n == orig.len(),
                k <= orig.len(),
                old_pings@ == orig.skip(k as int),
                fired@ == orig.take(k as int).filter(|p: PendingPing| p.fires_at <= now),
                self.pings@ == orig.take(k as int).filter(|p: PendingPing| p.fires_at > now),
            decreases n - k,
        {
            let p = old_pings.remove(0);
            proof {
                reveal(Seq::filter);
                assert(p == orig[k as int]);
                assert(orig.take(k + 1).drop_last() =~= orig.take(k as int));
                assert(orig.take(k + 1).last() == orig[k as int]);
                assert(old_pings@ =~= orig.skip(k + 1));
            }
            if p.fires_at <= now {
                fired.push(p);
            } else {
                self.pings.push(p);
            }
            k = k + 1;
        }
        assert(orig.take(k as int) =~= orig);
        fired
    }

    /// Copies of all pending pings.
    pub fn list(&self) -> (r: Vec<PendingPing>)
        ensures
            r@ == self@,
    {
        let mut out: Vec<PendingPing> = Vec::new();
        let mut i: usize = 0;
        while i < self.pings.len()
            invariant
                i <= self.pings.len(),
                out@ == self@.take(i as int),
            decreases self.pings.len() - i,
        {
            out.push(self.pings[i].duplicate());
            assert(out@ =~= self@.take(i + 1));
            i = i + 1;
        }
        assert(self@.take(i as int) =~= self@);
        out
    }
}

/// Seconds until `fires_at`, rounded down, zero once it has passed.
pub open spec fn remaining_secs(fires_at: u64, now: u64) -> nat {
    if fires_at > now {
        ((fires_at - now) / 1000) as nat
    } else {
        0
    }
}

/// One line of the reminder.
pub open spec fn reminder_line(p: PendingPing, now: u64) -> Seq<char> {
    "- **"@ + p.id@ + "** \u{2014} fires in ~"@ + decimal(remaining_secs(p.fires_at, now)) + "s: "@ + p.message@
}

/// The reminder listing the pending pings, or nothing when there are none.
pub open spec fn reminder_text(pings: Seq<PendingPing>, now: u64) -> Seq<char> {
    if pings.len() == 0 {
        seq![]
    } else {
        join(
            seq!["## Pending Ping-Me-Back Timers\n"@] + pings.map_values(|p: PendingPing| reminder_line(p, now)) + seq![
                "\nUse `cancel_ping_me_back` to cancel any pending ping."@,
            ],
            "\n"@,
        )
    }
}

/// The pending pings as a section of a system reminder.
pub fn format_pending_pings_reminder(pings: &[PendingPing], now: u64) -> (r: String)
    ensures
        r@ == reminder_text(pings@, now),
{
    if pings.len() == 0 {
        return String::new();
    }
    let mut lines: Vec<Vec<char>> = Vec::new();
    lines.push(chars_of("## Pending Ping-Me-Back Timers\n"));
    let mut i: usize = 0;
    while i < pings.len()
        invariant
            i <= pings.len(),
            views(lines@) == seq!["## Pending Ping-Me-Back Timers\n"@] + pings@.take(i as int).map_values(
                |p: PendingPing| reminder_line(p, now),
            ),
        decreases pings.len() - i,
    {
        let p = &pings[i];
        let secs: u64 = if p.fires_at > now {
            (p.fires_at - now) / 1000
        } else {
            0
        };
        let mut l = chars_of("- **");
        append_str(&mut l, p.id.as_str());
        append_str(&mut l, "** \u{2014} fires in ~");
        append_chars(&mut l, &decimal_vec(secs));
        append_str(&mut l, "s: ");
        append_str(&mut l, p.message.as_str());
        let ghost before = views(lines@);
        lines.push(l);
        proof {
            assert(views(lines@) =~= before.push(reminder_line(pings@[i as int], now)));
            assert(pings@.take(i + 1).map_values(|p: PendingPing| reminder_line(p, now)) =~= pings@.take(
                i as int,
            ).map_values(|p: PendingPing| reminder_line(p, now)).push(reminder_line(pings@[i as int], now)));
        }
        i = i + 1;
    }
    assert(pings@.take(i as int) =~= pings@);
    let ghost before = views(lines@);
    lines.push(chars_of("\nUse `cancel_ping_me_back` to cancel any pending ping."));
    assert(views(lines@) =~= before.push("\nUse `cancel_ping_me_back` to cancel any pending ping."@));
    assert(views(lines@) =~= seq!["## Pending Ping-Me-Back Timers\n"@] + pings@.map_values(
        |p: PendingPing| reminder_line(p, now),
    ) + seq!["\nUse `cancel_ping_me_back` to cancel any pending ping."@]);
    let sep = chars_of("\n");
    let out = join_vec(&lines, &sep);
    string_of(&out)
}

/// The reply to a scheduled ping.
pub open spec fn scheduled_reply(delay: u64, id: Seq<char>) -> Seq<char> {
    "Ping scheduled. You will be pinged back in "@ + decimal(delay as nat) + " seconds.\nPing ID: "@ + id
        + "\nTo cancel: use cancel_ping_me_back with id \""@ + id + "\""@
}

/// The ping tool: refuses a zero delay, else schedules the ping with the
/// delay capped at an hour and reports its id.
pub fn ping_me_back(state: &mut PingState, args: PingMeBackArgs, now: u64, created_at: i64) -> (r: Result<
    String,
    String,
>)
    requires
        now <= u64::MAX - MAX_DELAY_SECS * 1000,
    ensures
        args.seconds == 0 ==> (r matches Err(e) && e@ == "seconds must be greater than 0"@ && final(state)@ == old(
            state,
        )@),
        args.seconds > 0 ==> (r matches Ok(m) && exists|id: Seq<char>|
            id.len() == 8 && m@ == scheduled_reply(clamp_delay(args.seconds), id) && final(state)@.drop_last()
                == old(state)@ && final(state)@.len() == old(state)@.len() + 1 && ping_fields(final(state)@.last())
                == scheduled(id, args.message@, clamp_delay(args.seconds), now, created_at)),
{
    if args.seconds == 0 {
        return Err("seconds must be greater than 0".to_owned());
    }
    let delay = if args.seconds <= MAX_DELAY_SECS {
        args.seconds
    } else {
        MAX_DELAY_SECS
    };
    let id = state.add(args.message, delay, now, created_at);
    let mut m = chars_of("Ping scheduled. You will be pinged back in ");
    append_chars(&mut m, &decimal_vec(delay));
    append_str(&mut m, " seconds.\nPing ID: ");
    append_str(&mut m, id.as_str());
    append_str(&mut m, "\nTo cancel: use cancel_ping_me_back with id \"");
    append_str(&mut m, id.as_str());
    append_str(&mut m, "\"");
    let r = string_of(&m);
    assert(r@ == scheduled_reply(delay, id@));
    assert(delay == clamp_delay(args.seconds));
    assert(clamp_delay(delay) == delay);
    assert(id@.len() == 8 && r@ == scheduled_reply(clamp_delay(args.seconds), id@) && state@.drop_last() == old(
        state,
    )@ && state@.len() == old(state)@.len() + 1 && ping_fields(state@.last()) == scheduled(
        id@,
        args.message@,
        clamp_delay(args.seconds),
        now,
        created_at,
    ));
    Ok(r)
}

/// The cancel tool: removes the pings with the id, and fails when there
/// was none.
pub fn cancel_ping(state: &mut PingState, args: &CancelPingArgs) -> (r: Result<String, String>)
    ensures
        final(state)@ == without_id(old(state)@, args.id@),
        has_id(old(state)@, args.id@) ==> (r matches Ok(m) && m@ == "Ping '"@ + args.id@ + "' cancelled."@),
        !has_id(old(state)@, args.id@) ==> (r matches Err(e) && e@ == "Ping '"@ + args.id@
            + "' not found. It may have already fired or been cancelled."@),
{
    let found = state.cancel(args.id.as_str());
    let mut m = chars_of("Ping '");
    append_str(&mut m, args.id.as_str());
    if found {
        append_str(&mut m, "' cancelled.");
        Ok(string_of(&m))
    } else {
        append_str(&mut m, "' not found. It may have already fired or been cancelled.");
        Err(string_of(&m))
    }
}

/// Cancelling the id of a ping just scheduled under a fresh id removes it
/// again and leaves the earlier pings as they were.
pub proof fn lemma_add_then_cancel(before: Seq<PendingPing>, after: Seq<PendingPing>, id: Seq<char>)
    requires
        !has_id(before, id),
        after.len() == before.len() + 1,
        after.drop_last() == before,
        after.last().id@ == id,
    ensures
        without_id(after, id) == before,
{
    reveal(Seq::filter);
    assert(after.drop_last().filter(|p: PendingPing| p.id@ != id) == before.filter(|p: PendingPing| p.id@ != id));
    lemma_without_absent(before, id);
}

/// Removing an id that no ping has changes nothing.
pub proof fn lemma_without_absent(v: Seq<PendingPing>, id: Seq<char>)
    requires
        !has_id(v, id),
    ensures
        without_id(v, id) == v,
    decreases v.len(),
{
    reveal(Seq::filter);
    if v.len() > 0 {
        assert(!has_id(v.drop_last(), id)) by {
            if has_id(v.drop_last(), id) {
                let i = choose|i: int| 0 <= i < v.drop_last().len() && v.drop_last()[i].id@ == id;
                assert(v[i] == v.drop_last()[i]);
            }
        }
        lemma_without_absent(v.drop_last(), id);
        assert(v.last() == v[v.len() - 1]);
        assert(v.drop_last().push(v.last()) =~= v);
    }
}

/// Every ping is either due or not due at `now`, and popping the due ones
/// loses none: the two parts together are as many as there were.
pub proof fn lemma_pop_partitions(v: Seq<PendingPing>, now: u64)
    ensures
        due(v, now).len() + not_due(v, now).len() == v.len(),
    decreases v.len(),
{
    reveal(Seq::filter);
    if v.len() > 0 {
        lemma_pop_partitions(v.drop_last(), now);
    }
}

} // verus!
