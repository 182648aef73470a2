use vstd::prelude::*;

verus! {

/// The wall-clock time in milliseconds since the Unix epoch
/// (`SystemTime::now().duration_since(UNIX_EPOCH)`), or 0 when the clock reads
/// before the epoch. Nothing is promised of the value: it depends on the clock.
#[verifier::external_body]
pub fn get_time() -> (r: u64) {
    match std::time::SystemTime::now().duration_since(std::time::UNIX_EPOCH) {
        Ok(d) => d.as_millis() as u64,
        Err(_) => 0,
    }
}

/// The time a search may take, in milliseconds: the fixed move time when one
/// is given, else a thirtieth of the remaining time of the side to move plus its
/// increment, but never more than a quarter of the remaining time.
pub open spec fn search_budget(wtime: u64, btime: u64, winc: u64, binc: u64, movetime: Option<u64>, white: bool) -> int {
    match movetime {
        Some(m) => m as int,
        None => {
            let (t, inc) = if white { (wtime as int, winc as int) } else { (btime as int, binc as int) };
            let a = t / 30 + inc;
            let b = t / 4;
            if a <= b { a } else { b }
        },
    }
}

/// Without a fixed move time, the budget of the side to move rests on its own
/// clock and increment alone: the other side's clock and increment change nothing.
pub proof fn lemma_budget_own_clock(w1: u64, w2: u64, b1: u64, b2: u64, wi1: u64, wi2: u64, bi1: u64, bi2: u64)
    ensures
        search_budget(w1, b1, wi1, bi1, None, true) == search_budget(w1, b2, wi1, bi2, None, true),
        search_budget(w1, b1, wi1, bi1, None, false) == search_budget(w2, b1, wi2, bi1, None, false),
        search_budget(w1, b1, wi1, bi1, None, true) <= w1 / 4,
        search_budget(w1, b1, wi1, bi1, None, false) <= b1 / 4,
        search_budget(w1, b1, wi1, bi1, None, false) <= b1 / 30 + bi1,
{
}

/// Three quarters of `x`, rounded down.
pub open spec fn three_quarters(x: int) -> int {
    x * 3 / 4
}

/// The time limits of a search, in milliseconds since the start of the search.
#[derive(Clone, Copy, Debug)]
pub struct TimeManager {
    /// When the search began (milliseconds since the Unix epoch).
    pub start_time: u64,
    /// Past it, no new depth is started.
    pub soft_limit: u64,
    /// Past it, the search stops.
    pub hard_limit: u64,
    /// The time per move is fixed.
    pub fixed_time: bool,
    pub stopped: bool,
}

impl TimeManager {
    /// The limits of a search for the side to move (`is_white_turn`): with a fixed
    /// move time both limits are that time; otherwise the hard limit is the search
    /// budget and the soft limit three quarters of it.
    pub fn new(wtime: u64, btime: u64, winc: u64, binc: u64, movetime: Option<u64>, is_white_turn: bool) -> (r: Self)
        requires
            movetime is None ==> (if is_white_turn { wtime / 30 + winc } else { btime / 30 + binc }) <= u64::MAX,
        ensures
            r.hard_limit as int == search_budget(wtime, btime, winc, binc, movetime, is_white_turn),
            movetime matches Some(m) ==> r.hard_limit == m,
            movetime is None && is_white_turn ==> r.hard_limit as int == (if wtime / 30 + winc <= wtime / 4 {
                wtime / 30 + winc
            } else {
                (wtime / 4) as int
            }),
            movetime is None && !is_white_turn ==> r.hard_limit as int == (if btime / 30 + binc <= btime / 4 {
                btime / 30 + binc
            } else {
                (btime / 4) as int
            }),
            r.soft_limit as int == (if movetime is Some {
                r.hard_limit as int
            } else {
                three_quarters(r.hard_limit as int)
            }),
            r.fixed_time == movetime is Some,
            !r.stopped,
    {
        let start_time = get_time();
        let max_search_duration_ms: u64 = match movetime {
            Some(m) => m,
            None => {
                let (time_left, increment) = if is_white_turn { (wtime, winc) } else { (btime, binc) };
                let a = time_left / 30 + increment;
                let b = time_left / 4;
                if a <= b { a } else { b }
            },
        };
        let soft: u64 = match movetime {
            Some(m) => m,
            None => {
                let x = max_search_duration_ms;
                proof {
                    assert((x / 4) * 3 + (x % 4) * 3 / 4 == x * 3 / 4) by (nonlinear_arith);
                }
                (x / 4) * 3 + (x % 4) * 3 / 4
            },
        };
        TimeManager { start_time, soft_limit: soft, hard_limit: max_search_duration_ms, fixed_time: movetime.is_some(), stopped: false }
    }

    /// Starts the clock again for the next move.
    pub fn reset_for_next_move(&mut self)
        ensures
            *final(self) == (TimeManager { start_time: final(self).start_time, stopped: false, ..*old(self) }),
    {
        self.start_time = get_time();
        self.stopped = false;
    }

    /// The milliseconds from the start of the search to `now` (none when the clock reads earlier).
    pub fn elapsed_at(&self, now: u64) -> (r: u64)
        ensures
            r as int == (if now >= self.start_time { now - self.start_time } else { 0 }),
    {
        if now >= self.start_time {
            now - self.start_time
        } else {
            0
        }
    }

    /// The milliseconds since the search began.
    pub fn elapsed(&self) -> (r: u64) {
        let now = get_time();
        self.elapsed_at(now)
    }

    /// With `elapsed` milliseconds gone: no new depth should start (never with a fixed move time).
    pub fn soft_limit_reached_after(&self, elapsed: u64) -> (r: bool)
        ensures
            r == (!self.fixed_time && elapsed >= self.soft_limit),
    {
        !self.fixed_time && elapsed >= self.soft_limit
    }

    /// With `elapsed` milliseconds gone: the search must stop.
    pub fn hard_limit_reached_after(&self, elapsed: u64) -> (r: bool)
        ensures
            r == (elapsed >= self.hard_limit),
    {
        elapsed >= self.hard_limit
    }

    /// No new depth should start now (never with a fixed move time).
    pub fn is_soft_limit_reached(&self) -> (r: bool)
        ensures
            self.fixed_time ==> !r,
            self.soft_limit == 0 && !self.fixed_time ==> r,
    {
        let e = self.elapsed();
        self.soft_limit_reached_after(e)
    }

    /// The search must stop now.
    pub fn is_hard_limit_reached(&self) -> (r: bool)
        ensures
            self.hard_limit == 0 ==> r,
    {
        let e = self.elapsed();
        self.hard_limit_reached_after(e)
    }
}

/// The characters of `d` with a comma before the character at `i` whenever
/// `0 < i` and `len - i` is a multiple of three.
pub open spec fn commas_upto(d: Seq<char>, len: int, n: int) -> Seq<char>
    decreases n,
{
    if n <= 0 {
        Seq::empty()
    } else {
        let i = n - 1;
        commas_upto(d, len, n - 1) + (if i > 0 && (len - i) % 3 == 0 { seq![','] } else { Seq::empty() }) + seq![d[i]]
    }
}

/// Writes a number with thousands separators, such as `1,234,567`.
pub fn format_with_commas(n: u64) -> (r: String)
    ensures
        r@ == commas_upto(crate::text::decimal(n as nat), crate::text::decimal(n as nat).len() as int, crate::text::decimal(n as nat).len() as int),
{
    let mut digits: Vec<char> = Vec::new();
    crate::text::push_decimal(&mut digits, n);
    proof {
        assert(digits@ =~= crate::text::decimal(n as nat));
    }
    let len = digits.len();
    let mut out: Vec<char> = Vec::new();
    let mut i: usize = 0;
    while i < len
        invariant
            len == digits@.len(),
            i <= len,
            out@ == commas_upto(digits@, len as int, i as int),
        decreases len - i,
    {
        if i > 0 && (len - i) % 3 == 0 {
            out.push(',');
        }
        out.push(digits[i]);
        i = i + 1;
        proof {
            assert(out@ =~= commas_upto(digits@, len as int, i as int));
        }
    }
    crate::text::string_of(&out)
}

} // verus!
