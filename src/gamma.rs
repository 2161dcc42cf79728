//! Market discovery: parsed market metadata, the choice of the
//! highest-certainty outcome, and the subscriptions it leads to.

use vstd::prelude::*;
use crate::decimal::{Decimal, MAX_RAW, SCALE, drop_digits, fits, pow10_small, raw_from_parts, div_trunc};
use crate::strategy::{MarketInfo, hours_between};
use vstd::string::*;

verus! {

/// The value of a decimal text as mantissa and scale (`mantissa / 10^scale`),
/// as `rust_decimal` parses it; none when it does not parse.
pub uninterp spec fn decimal_text(s: Seq<char>) -> Option<(int, int)>;

/// Relies on `rust_decimal::Decimal::from_str` and its `mantissa` and
/// `scale` accessors: the parsed value as a 96-bit mantissa and a scale.
#[verifier::external_body]
fn parse_decimal_parts(s: &str) -> (r: Option<(i128, u32)>)
    ensures
        match decimal_text(s@) {
            Some(v) => r.is_some() && r.unwrap().0 == v.0 && r.unwrap().1 == v.1,
            None => r.is_none(),
        },
        r.is_some() ==> -79228162514264337593543950336 < r.unwrap().0 < 79228162514264337593543950336,
{
    match <rust_decimal::Decimal as core::str::FromStr>::from_str(s) {
        Ok(d) => Some((d.mantissa(), d.scale())),
        Err(_) => None,
    }
}

/// `mantissa / 10^scale` at nine fractional digits (truncated toward
/// zero), when within the input range.
pub fn from_parts(mantissa: i128, scale: u32) -> (r: Option<Decimal>)
    requires
        fits(mantissa as int),
    ensures
        match r {
            Some(d) => d.raw == raw_from_parts(mantissa as int, scale as nat) && -MAX_RAW <= d.raw <= MAX_RAW,
            None => !(-MAX_RAW <= raw_from_parts(mantissa as int, scale as nat) <= MAX_RAW),
        },
{
    if scale <= 9 {
        let f = pow10_small(9 - scale);
        if mantissa > MAX_RAW || mantissa < -MAX_RAW {
            assert(!(-MAX_RAW <= mantissa * f <= MAX_RAW)) by (nonlinear_arith)
                requires f >= 1, mantissa > MAX_RAW || mantissa < -MAX_RAW;
            return None;
        }
        assert(-MAX_RAW * SCALE <= mantissa * f <= MAX_RAW * SCALE) by (nonlinear_arith)
            requires 1 <= f <= SCALE, -MAX_RAW <= mantissa <= MAX_RAW;
        let raw = mantissa * f;
        if raw > MAX_RAW || raw < -MAX_RAW {
            None
        } else {
            Some(Decimal { raw })
        }
    } else {
        let mut m = mantissa;
        let mut k: u32 = scale - 9;
        while k > 0
            invariant
                fits(m as int),
                drop_digits(m as int, k as nat) == drop_digits(mantissa as int, (scale - 9) as nat),
            decreases k,
        {
            m = div_trunc(m, 10);
            k = k - 1;
        }
        if m > MAX_RAW || m < -MAX_RAW {
            None
        } else {
            Some(Decimal { raw: m })
        }
    }
}

/// The value of a decimal text at nine fractional digits, when it parses
/// and is within range.
pub open spec fn decimal_of(s: Seq<char>) -> Option<int> {
    match decimal_text(s) {
        Some(v) => if -MAX_RAW <= raw_from_parts(v.0, v.1 as nat) <= MAX_RAW {
            Some(raw_from_parts(v.0, v.1 as nat))
        } else {
            None
        },
        None => None,
    }
}

/// Parses a decimal text to nine fractional digits; none when it does
/// not parse or is out of range.
pub fn parse_decimal(s: &str) -> (r: Option<Decimal>)
    ensures
        r.is_some() == decimal_of(s@).is_some(),
        r.is_some() ==> r.unwrap().raw == decimal_of(s@).unwrap(),
        match decimal_text(s@) {
            Some(v) => match r {
                Some(d) => d.raw == raw_from_parts(v.0, v.1 as nat) && -MAX_RAW <= d.raw <= MAX_RAW,
                None => !(-MAX_RAW <= raw_from_parts(v.0, v.1 as nat) <= MAX_RAW),
            },
            None => r.is_none(),
        },
{
    match parse_decimal_parts(s) {
        Some((m, sc)) => from_parts(m, sc),
        None => None,
    }
}

/// Parses every price; none when any of them fails.
pub fn parse_outcome_prices(texts: &Vec<String>) -> (r: Option<Vec<Decimal>>)
    ensures
        r.is_some() == forall|i: int| 0 <= i < texts@.len() ==> parsed_ok(#[trigger] texts@[i]@),
        r.is_some() ==> r.unwrap()@.len() == texts@.len() && forall|i: int| 0 <= i < texts@.len() ==> (#[trigger] r.unwrap()@[i]).raw
            == raw_from_parts(decimal_text(texts@[i]@).unwrap().0, decimal_text(texts@[i]@).unwrap().1 as nat),
{
    let mut out: Vec<Decimal> = Vec::new();
    let mut i: usize = 0;
    while i < texts.len()
        invariant
            0 <= i <= texts@.len(),
            out@.len() == i,
            forall|k: int| 0 <= k < i ==> parsed_ok(#[trigger] texts@[k]@),
            forall|k: int| 0 <= k < i ==> (#[trigger] out@[k]).raw == raw_from_parts(
                decimal_text(texts@[k]@).unwrap().0,
                decimal_text(texts@[k]@).unwrap().1 as nat,
            ),
        decreases texts@.len() - i,
    {
        match parse_decimal(texts[i].as_str()) {
            Some(d) => out.push(d),
            None => return None,
        }
        i = i + 1;
    }
    Some(out)
}

/// The instant of an RFC 3339 date-time, in Unix milliseconds; none when
/// it does not parse.
pub uninterp spec fn rfc3339_millis(s: Seq<char>) -> Option<int>;

/// Relies on `chrono::DateTime::parse_from_rfc3339` and `timestamp_millis`.
#[verifier::external_body]
fn parse_rfc3339_millis(s: &str) -> (r: Option<i64>)
    ensures
        match rfc3339_millis(s@) {
            Some(t) => r == Some(t as i64) && t == r.unwrap(),
            None => r.is_none(),
        },
{
    chrono::DateTime::parse_from_rfc3339(s).ok().map(|dt| dt.timestamp_millis())
}

/// The end date of a market: RFC 3339, retried with a trailing 'Z'
/// spelled "+00:00".
pub open spec fn datetime_millis(s: Seq<char>) -> Option<int> {
    match rfc3339_millis(s) {
        Some(t) => Some(t),
        None => if s.len() > 0 && s.last() == 'Z' {
            rfc3339_millis(s.drop_last() + "+00:00"@)
        } else {
            None
        },
    }
}

/// Parses a market's end date to Unix milliseconds.
pub fn parse_datetime(s: &str) -> (r: Option<i64>)
    ensures
        match datetime_millis(s@) {
            Some(t) => r.is_some() && r.unwrap() == t,
            None => r.is_none(),
        },
{
    match parse_rfc3339_millis(s) {
        Some(t) => return Some(t),
        None => {},
    }
    proof { reveal_strlit("Z"); }
    match crate::proxy::strip_suffix(s, "Z") {
        Some(rest) => {
            proof {
                assert(rest@ =~= s@.drop_last());
            }
            let mut fixed = rest.to_owned();
            fixed.append("+00:00");
            parse_rfc3339_millis(fixed.as_str())
        },
        None => {
            proof {
                if s@.len() > 0 && s@.last() == 'Z' {
                    assert(s@.subrange(s@.len() - 1, s@.len() as int) =~= "Z"@);
                }
            }
            None
        },
    }
}

/// A text that parses to an in-range value.
pub open spec fn parsed_ok(s: Seq<char>) -> bool {
    decimal_text(s).is_some() && -MAX_RAW <= raw_from_parts(decimal_text(s).unwrap().0, decimal_text(s).unwrap().1 as nat) <= MAX_RAW
}

/// A discovered market.
#[derive(Clone, Debug)]
pub struct GammaMarket {
    pub question: String,
    pub slug: String,
    /// Resolution time, Unix milliseconds.
    pub end_date: Option<i64>,
    /// Outcome names, aligned by index with prices and token ids.
    pub outcomes: Vec<String>,
    pub outcome_prices: Vec<Decimal>,
    pub clob_token_ids: Vec<String>,
    pub active: bool,
    pub closed: bool,
    pub liquidity: Option<Decimal>,
    pub category: Option<String>,
}

/// `i` is the last index holding the highest price.
pub open spec fn is_last_argmax(p: Seq<Decimal>, i: int) -> bool {
    &&& 0 <= i < p.len()
    &&& forall|j: int| 0 <= j < p.len() ==> (#[trigger] p[j]).raw <= p[i].raw
    &&& forall|j: int| i < j < p.len() ==> (#[trigger] p[j]).raw < p[i].raw
}

impl GammaMarket {
    /// Hours from `now_ms` until the market's end date.
    pub fn hours_until_expiry(&self, now_ms: i64) -> (r: Option<Decimal>)
        ensures
            match self.end_date {
                Some(e) => r == Some(Decimal { raw: hours_between(now_ms as int, e as int) as i128 }),
                None => r.is_none(),
            },
    {
        match self.end_date {
            Some(e) => {
                let diff = (e as i128) - (now_ms as i128);
                assert(fits(diff * SCALE)) by (nonlinear_arith)
                    requires -20_000_000_000_000_000_000 <= diff <= 20_000_000_000_000_000_000;
                Some(Decimal { raw: div_trunc(diff * SCALE, crate::strategy::MS_PER_HOUR) })
            },
            None => None,
        }
    }

    /// Whether some outcome is priced at or above `threshold`.
    pub fn has_high_certainty_outcome(&self, threshold: Decimal) -> (r: bool)
        ensures
            r == exists|i: int| 0 <= i < self.outcome_prices@.len() && (#[trigger] self.outcome_prices@[i]).raw >= threshold.raw,
    {
        let mut i: usize = 0;
        while i < self.outcome_prices.len()
            invariant
                0 <= i <= self.outcome_prices@.len(),
                forall|k: int| 0 <= k < i ==> (#[trigger] self.outcome_prices@[k]).raw < threshold.raw,
            decreases self.outcome_prices@.len() - i,
        {
            if self.outcome_prices[i].raw >= threshold.raw {
                return true;
            }
            i = i + 1;
        }
        false
    }

    /// Index of the highest-priced outcome (the last one among equals);
    /// none without prices.
    pub fn highest_certainty_index(&self) -> (r: Option<usize>)
        ensures
            match r {
                Some(i) => is_last_argmax(self.outcome_prices@, i as int),
                None => self.outcome_prices@.len() == 0,
            },
    {
        let p = &self.outcome_prices;
        if p.len() == 0 {
            return None;
        }
        let mut best: usize = 0;
        let mut i: usize = 1;
        while i < p.len()
            invariant
                1 <= i <= p@.len(),
                0 <= best < i,
                forall|j: int| 0 <= j < i ==> (#[trigger] p@[j]).raw <= p@[best as int].raw,
                forall|j: int| best < j < i ==> (#[trigger] p@[j]).raw < p@[best as int].raw,
            decreases p@.len() - i,
        {
            if p[i].raw >= p[best].raw {
                best = i;
            }
            i = i + 1;
        }
        Some(best)
    }
}

/// The index of the highest-priced outcome (the last among equals), if any.
pub open spec fn argmax_index(p: Seq<Decimal>) -> Option<int> {
    if exists|i: int| is_last_argmax(p, i) {
        Some(choose|i: int| is_last_argmax(p, i))
    } else {
        None
    }
}

/// There is one last highest index.
pub proof fn lemma_argmax_unique(p: Seq<Decimal>, i: int)
    requires
        is_last_argmax(p, i),
    ensures
        argmax_index(p) == Some(i),
{
    let j = choose|j: int| is_last_argmax(p, j);
    if j < i {
        assert(p[i].raw < p[j].raw);
        assert(p[i].raw <= p[j].raw && p[j].raw <= p[i].raw);
    } else if j > i {
        assert(p[j].raw < p[i].raw);
        assert(p[j].raw <= p[i].raw && p[i].raw <= p[j].raw);
    }
}

/// The high-certainty token of a market: the token id at its argmax, if any.
pub open spec fn token_of(mk: GammaMarket) -> Option<String> {
    match argmax_index(mk.outcome_prices@) {
        Some(i) => if i < mk.clob_token_ids@.len() { Some(mk.clob_token_ids@[i]) } else { None },
        None => None,
    }
}

/// The metadata entry of a market: its high-certainty token and outcome,
/// when both exist, with the market's question, slug, end date and liquidity.
pub open spec fn entry_of(mk: GammaMarket, now_ms: int) -> Option<(String, MarketInfo)> {
    match argmax_index(mk.outcome_prices@) {
        Some(i) => if i < mk.clob_token_ids@.len() && i < mk.outcomes@.len() {
            Some((mk.clob_token_ids@[i], MarketInfo {
                question: mk.question,
                outcome: mk.outcomes@[i],
                slug: mk.slug,
                end_date: mk.end_date,
                liquidity: mk.liquidity,
                hours_until_expiry: match mk.end_date {
                    Some(e) => Some(Decimal { raw: hours_between(now_ms, e as int) as i128 }),
                    None => None,
                },
            }))
        } else {
            None
        },
        None => None,
    }
}

/// The entries of markets, in order.
pub open spec fn infos_of(ms: Seq<GammaMarket>, now_ms: int) -> Seq<(String, MarketInfo)>
    decreases ms.len(),
{
    if ms.len() == 0 {
        Seq::empty()
    } else {
        let rest = infos_of(ms.drop_last(), now_ms);
        match entry_of(ms.last(), now_ms) {
            Some(e) => rest.push(e),
            None => rest,
        }
    }
}

/// The tokens to add to `sub`: each market's high-certainty token not yet
/// subscribed nor added for an earlier market, in market order.
pub open spec fn new_tokens(sub: Seq<String>, ms: Seq<GammaMarket>) -> Seq<String>
    decreases ms.len(),
{
    if ms.len() == 0 {
        Seq::empty()
    } else {
        let prev = new_tokens(sub, ms.drop_last());
        match token_of(ms.last()) {
            Some(t) => if exists|k: int| 0 <= k < (sub + prev).len() && (#[trigger] (sub + prev)[k])@ == t@ {
                prev
            } else {
                prev.push(t)
            },
            None => prev,
        }
    }
}

/// Market metadata for the highest-certainty outcome of each market that
/// has one with a token id and a name; the other outcomes are left out so
/// that strategies never trade the wrong side.
pub fn build_market_info(markets: &Vec<GammaMarket>, now_ms: i64) -> (r: Vec<(String, MarketInfo)>)
    ensures
        r@ == infos_of(markets@, now_ms as int),
{
    let mut out: Vec<(String, MarketInfo)> = Vec::new();
    let mut m: usize = 0;
    while m < markets.len()
        invariant
            0 <= m <= markets@.len(),
            out@ == infos_of(markets@.take(m as int), now_ms as int),
        decreases markets@.len() - m,
    {
        let market = &markets[m];
        assert(markets@.take(m as int + 1).drop_last() =~= markets@.take(m as int));
        match market.highest_certainty_index() {
            Some(i) => {
                proof { lemma_argmax_unique(market.outcome_prices@, i as int); }
                if i < market.clob_token_ids.len() && i < market.outcomes.len() {
                    let info = MarketInfo::with_liquidity(
                        market.question.clone(),
                        market.outcomes[i].clone(),
                        market.slug.clone(),
                        market.end_date,
                        market.liquidity,
                        now_ms,
                    );
                    out.push((market.clob_token_ids[i].clone(), info));
                }
            },
            None => {
                assert(!exists|i: int| is_last_argmax(market.outcome_prices@, i));
            },
        }
        m = m + 1;
    }
    assert(markets@.take(m as int) =~= markets@);
    out
}

/// Adds the highest-certainty token of each market to the subscriptions
/// when it is not there yet, and returns the tokens added, in order.
pub fn subscribe_new_tokens(subscribed: &mut Vec<String>, markets: &Vec<GammaMarket>) -> (r: Vec<String>)
    ensures
        r@ == new_tokens(old(subscribed)@, markets@),
        final(subscribed)@ == old(subscribed)@ + r@,
{
    let mut added: Vec<String> = Vec::new();
    let mut m: usize = 0;
    while m < markets.len()
        invariant
            0 <= m <= markets@.len(),
            subscribed@ == old(subscribed)@ + added@,
            added@ == new_tokens(old(subscribed)@, markets@.take(m as int)),
        decreases markets@.len() - m,
    {
        let market = &markets[m];
        assert(markets@.take(m as int + 1).drop_last() =~= markets@.take(m as int));
        match market.highest_certainty_index() {
            Some(i) => {
                proof { lemma_argmax_unique(market.outcome_prices@, i as int); }
                if i < market.clob_token_ids.len() {
                    let t = &market.clob_token_ids[i];
                    if !contains_text(subscribed, t) {
                        subscribed.push(t.clone());
                        added.push(t.clone());
                        assert(subscribed@ =~= old(subscribed)@ + added@);
                    }
                }
            },
            None => {
                assert(!exists|i: int| is_last_argmax(market.outcome_prices@, i));
            },
        }
        m = m + 1;
    }
    assert(markets@.take(m as int) =~= markets@);
    added
}

/// Whether `v` holds a string equal to `t`.
pub fn contains_text(v: &Vec<String>, t: &String) -> (r: bool)
    ensures
        r == exists|k: int| 0 <= k < v@.len() && (#[trigger] v@[k])@ == t@,
{
    let mut i: usize = 0;
    while i < v.len()
        invariant
            0 <= i <= v@.len(),
            forall|k: int| 0 <= k < i ==> (#[trigger] v@[k])@ != t@,
        decreases v@.len() - i,
    {
        if v[i] == *t {
            assert(v@[i as int]@ == t@);
            return true;
        }
        i = i + 1;
    }
    false
}

} // verus!

verus! {

/// A market worth offering to strategies: open, expiring within
/// `(0, max_hours]` of `now_ms`, with some outcome priced at least `min_certainty`.
pub open spec fn is_candidate(m: GammaMarket, now_ms: int, max_hours: int, min_certainty: int) -> bool {
    &&& m.active
    &&& !m.closed
    &&& m.end_date.is_some()
    &&& 0 < hours_between(now_ms, m.end_date.unwrap() as int) <= max_hours
    &&& exists|i: int| 0 <= i < m.outcome_prices@.len() && (#[trigger] m.outcome_prices@[i]).raw >= min_certainty
}

/// The candidates among markets, in order.
pub open spec fn candidates_of(s: Seq<GammaMarket>, now_ms: int, max_hours: int, min_certainty: int) -> Seq<GammaMarket>
    decreases s.len(),
{
    if s.len() == 0 {
        Seq::empty()
    } else {
        let rest = candidates_of(s.drop_last(), now_ms, max_hours, min_certainty);
        if is_candidate(s.last(), now_ms, max_hours, min_certainty) { rest.push(s.last()) } else { rest }
    }
}

/// Markets with their first occurrence of each slug kept, in order.
pub open spec fn unique_by_slug(s: Seq<GammaMarket>) -> Seq<GammaMarket>
    decreases s.len(),
{
    if s.len() == 0 {
        Seq::empty()
    } else {
        let rest = unique_by_slug(s.drop_last());
        if exists|j: int| 0 <= j < s.len() - 1 && (#[trigger] s[j]).slug@ == s.last().slug@ {
            rest
        } else {
            rest.push(s.last())
        }
    }
}

impl GammaMarket {
    /// Whether the market is a candidate at `now_ms`.
    pub fn is_candidate(&self, now_ms: i64, max_hours: Decimal, min_certainty: Decimal) -> (r: bool)
        ensures
            r == is_candidate(*self, now_ms as int, max_hours.raw as int, min_certainty.raw as int),
    {
        if !self.active || self.closed {
            return false;
        }
        let hours = match self.hours_until_expiry(now_ms) {
            Some(h) => h,
            None => return false,
        };
        if !(hours.raw > 0 && hours.raw <= max_hours.raw) {
            return false;
        }
        self.has_high_certainty_outcome(min_certainty)
    }
}

/// Keeps the candidates, in order.
pub fn select_candidates(markets: Vec<GammaMarket>, now_ms: i64, max_hours: Decimal, min_certainty: Decimal) -> (r: Vec<GammaMarket>)
    ensures
        r@ == candidates_of(markets@, now_ms as int, max_hours.raw as int, min_certainty.raw as int),
{
    let ghost s = markets@;
    let mut rest = markets;
    let mut out: Vec<GammaMarket> = Vec::new();
    let mut k: usize = 0;
    let total = rest.len();
    while rest.len() > 0
        invariant
            total == s.len(),
            k + rest@.len() == s.len(),
            rest@ == s.subrange(k as int, s.len() as int),
            out@ == candidates_of(s.take(k as int), now_ms as int, max_hours.raw as int, min_certainty.raw as int),
        decreases rest@.len(),
    {
        let m = rest.remove(0);
        assert(m == s[k as int]);
        assert(s.take(k as int + 1).drop_last() =~= s.take(k as int));
        if m.is_candidate(now_ms, max_hours, min_certainty) {
            out.push(m);
        }
        k = k + 1;
        assert(rest@ =~= s.subrange(k as int, s.len() as int));
    }
    assert(s.take(k as int) =~= s);
    out
}

/// Some market before index `k` has slug `x`.
pub open spec fn slug_before(s: Seq<GammaMarket>, k: int, x: Seq<char>) -> bool {
    exists|j: int| 0 <= j < k && (#[trigger] s[j]).slug@ == x
}

/// Joins two lists of markets, keeping the first market of each slug.
pub fn merge_unique_by_slug(first: Vec<GammaMarket>, second: Vec<GammaMarket>) -> (r: Vec<GammaMarket>)
    ensures
        r@ == unique_by_slug(first@ + second@),
{
    let ghost s = first@ + second@;
    let mut rest = first;
    let mut more = second;
    rest.append(&mut more);
    assert(rest@ =~= s);
    let mut out: Vec<GammaMarket> = Vec::new();
    let mut seen: Vec<String> = Vec::new();
    let mut k: usize = 0;
    let total = rest.len();
    while rest.len() > 0
        invariant
            total == s.len(),
            k + rest@.len() == s.len(),
            rest@ == s.subrange(k as int, s.len() as int),
            out@ == unique_by_slug(s.take(k as int)),
            seen@.len() == out@.len(),
            forall|i: int| 0 <= i < out@.len() ==> (#[trigger] seen@[i])@ == out@[i].slug@,
            forall|x: Seq<char>|
                #![trigger slug_before(s, k as int, x)]
                #![trigger slug_before(out@, out@.len() as int, x)]
                slug_before(s, k as int, x) == slug_before(out@, out@.len() as int, x),
        decreases rest@.len(),
    {
        let m = rest.remove(0);
        assert(m == s[k as int]);
        let ghost t = s.take(k as int + 1);
        assert(t.drop_last() =~= s.take(k as int));
        assert(t.last() == m);
        let dup = contains_text(&seen, &m.slug);
        proof {
            assert(dup == slug_before(out@, out@.len() as int, m.slug@)) by {
                if dup {
                    let i = choose|i: int| 0 <= i < seen@.len() && (#[trigger] seen@[i])@ == m.slug@;
                    assert(out@[i].slug@ == m.slug@);
                }
                if slug_before(out@, out@.len() as int, m.slug@) {
                    let i = choose|i: int| 0 <= i < out@.len() && (#[trigger] out@[i]).slug@ == m.slug@;
                    assert(seen@[i]@ == m.slug@);
                }
            }
            assert(slug_before(s, k as int, m.slug@) == slug_before(out@, out@.len() as int, m.slug@));
            assert(dup == exists|j: int| 0 <= j < t.len() - 1 && (#[trigger] t[j]).slug@ == t.last().slug@) by {
                if dup {
                    let j = choose|j: int| 0 <= j < k && (#[trigger] s[j]).slug@ == m.slug@;
                    assert(t[j] == s[j]);
                }
                if exists|j: int| 0 <= j < t.len() - 1 && (#[trigger] t[j]).slug@ == t.last().slug@ {
                    let j = choose|j: int| 0 <= j < t.len() - 1 && (#[trigger] t[j]).slug@ == t.last().slug@;
                    assert(t[j] == s[j]);
                    assert(slug_before(s, k as int, m.slug@));
                }
            }
        }
        let ghost old_out = out@;
        let ghost old_k = k as int;
        if !dup {
            seen.push(m.slug.clone());
            out.push(m);
        }
        k = k + 1;
        proof {
            assert(rest@ =~= s.subrange(k as int, s.len() as int));
            assert forall|x: Seq<char>| #![trigger slug_before(s, k as int, x)] #![trigger slug_before(out@, out@.len() as int, x)]
                slug_before(s, k as int, x) == slug_before(out@, out@.len() as int, x) by {
                assert(slug_before(s, old_k, x) == slug_before(old_out, old_out.len() as int, x));
                if slug_before(s, k as int, x) {
                    let j = choose|j: int| 0 <= j < k && (#[trigger] s[j]).slug@ == x;
                    if j < old_k {
                        assert(slug_before(s, old_k, x));
                        let i = choose|i: int| 0 <= i < old_out.len() && (#[trigger] old_out[i]).slug@ == x;
                        assert(out@[i] == old_out[i]);
                    } else if !dup {
                        assert(out@[old_out.len() as int] == m);
                    } else {
                        let i = choose|i: int| 0 <= i < old_out.len() && (#[trigger] old_out[i]).slug@ == m.slug@;
                        assert(out@[i] == old_out[i]);
                    }
                }
                if slug_before(out@, out@.len() as int, x) {
                    let i = choose|i: int| 0 <= i < out@.len() && (#[trigger] out@[i]).slug@ == x;
                    if i < old_out.len() {
                        assert(out@[i] == old_out[i]);
                        assert(slug_before(old_out, old_out.len() as int, x));
                        let j = choose|j: int| 0 <= j < old_k && (#[trigger] s[j]).slug@ == x;
                    } else {
                        assert(s[old_k].slug@ == x);
                    }
                }
            }
        }
    }
    assert(s.take(k as int) =~= s);
    out
}

} // verus!

verus! {

/// Builds a market from its parsed fields. Prices that do not all parse
/// count as none; a market without prices or without token ids is invalid
/// data. The end date is the market's own, else the event's.
pub fn assemble_market(
    question: String,
    slug: String,
    end_date_text: Option<String>,
    event_end_date_text: Option<String>,
    outcomes: Vec<String>,
    price_texts: Vec<String>,
    clob_token_ids: Vec<String>,
    active: bool,
    closed: bool,
    liquidity_text: Option<String>,
    category: Option<String>,
) -> (r: Result<GammaMarket, crate::errors::GammaError>)
    ensures
        match r {
            Ok(m) => {
                &&& price_texts@.len() > 0
                &&& forall|i: int| 0 <= i < price_texts@.len() ==> parsed_ok(#[trigger] price_texts@[i]@)
                &&& clob_token_ids@.len() > 0
                &&& m.outcome_prices@.len() == price_texts@.len()
                &&& forall|i: int| 0 <= i < price_texts@.len() ==> Some((#[trigger] m.outcome_prices@[i]).raw as int)
                    == decimal_of(price_texts@[i]@)
                &&& m.category == category
                &&& m.liquidity == match liquidity_text {
                    Some(t) => match decimal_of(t@) { Some(v) => Some(Decimal { raw: v as i128 }), None => None },
                    None => None,
                }
                &&& m.clob_token_ids@ == clob_token_ids@
                &&& m.outcomes@ == outcomes@
                &&& m.question == question && m.slug == slug && m.active == active && m.closed == closed
                &&& m.end_date == match (end_date_text, event_end_date_text) {
                    (Some(t), _) => match datetime_millis(t@) { Some(v) => Some(v as i64), None => None },
                    (None, Some(t)) => match datetime_millis(t@) { Some(v) => Some(v as i64), None => None },
                    (None, None) => None,
                }
            },
            Err(e) => e is InvalidData && (price_texts@.len() == 0
                || !(forall|i: int| 0 <= i < price_texts@.len() ==> parsed_ok(#[trigger] price_texts@[i]@))
                || clob_token_ids@.len() == 0),
        },
{
    let prices = match parse_outcome_prices(&price_texts) {
        Some(p) => p,
        None => Vec::new(),
    };
    if prices.len() == 0 {
        return Err(crate::errors::GammaError::InvalidData(String::from_str("No outcome prices")));
    }
    if clob_token_ids.len() == 0 {
        return Err(crate::errors::GammaError::InvalidData(String::from_str("No token IDs")));
    }
    let end_text = match end_date_text {
        Some(t) => Some(t),
        None => event_end_date_text,
    };
    let end_date = match &end_text {
        Some(t) => parse_datetime(t.as_str()),
        None => None,
    };
    let liquidity = match &liquidity_text {
        Some(t) => parse_decimal(t.as_str()),
        None => None,
    };
    Ok(GammaMarket {
        question,
        slug,
        end_date,
        outcomes,
        outcome_prices: prices,
        clob_token_ids,
        active,
        closed,
        liquidity,
        category,
    })
}

} // verus!
