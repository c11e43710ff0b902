//! The NONMEM-style control-stream parser.
//!
//! A control stream is line oriented: `;` starts a comment, records
//! begin with `$`. The parser works over the cleaned lines — comments
//! stripped, whitespace trimmed, blank lines dropped — and every step
//! is specified exactly over those line sequences.

use vstd::prelude::*;

use crate::bytes::byte_pos;
use crate::bytes::bytes_eq;
use crate::bytes::contains;
use crate::bytes::contains_seq;
use crate::bytes::lemma_byte_pos_bounds;
use crate::bytes::lemma_byte_pos_shift;
use crate::bytes::replace_byte;
use crate::bytes::replace_seq;
use crate::bytes::split_byte_seq;
use crate::bytes::split_byte_vec;
use crate::bytes::split_ws_seq;
use crate::bytes::split_ws_vec;
use crate::bytes::starts_with;
use crate::bytes::starts_with_seq;
use crate::bytes::strip2;
use crate::bytes::strip2_seq;
use crate::bytes::subrange_vec;
use crate::bytes::to_upper;
use crate::bytes::trim;
use crate::bytes::trim_seq;
use crate::bytes::upper_seq;
use crate::config::copy_bytes;
use crate::config::CovariateConfig;
use crate::config::CovariateModel;
use crate::decimal::parse_nanos;
use crate::decimal::pow10;
use crate::decimal::sqrt_floor;
use crate::decimal::Decimal;
use crate::decimal::VARIANCE_LIMIT;
use crate::error::PKError;
use crate::error::PKResult;

verus! {

/// A line with its comment stripped (at the first `;`) and trimmed.
pub open spec fn clean_line(l: Seq<u8>) -> Seq<u8> {
    trim_seq(l.take(byte_pos(l, 59, 0)))
}

/// The cleaned, non-empty lines of a control stream.
pub open spec fn clean_lines(s: Seq<u8>) -> Seq<Seq<u8>>
    decreases s.len() via clean_lines_dec
{
    if s.len() == 0 {
        Seq::empty()
    } else {
        let p = byte_pos(s, 10, 0);
        let l = clean_line(s.take(p));
        let rest = if p == s.len() {
            Seq::<Seq<u8>>::empty()
        } else {
            clean_lines(s.skip(p + 1))
        };
        if l.len() > 0 {
            seq![l] + rest
        } else {
            rest
        }
    }
}

#[via_fn]
proof fn clean_lines_dec(s: Seq<u8>) {
    lemma_byte_pos_bounds(s, 10, 0);
}

/// The line-cursor parser over cleaned lines.
#[derive(Debug)]
pub struct ControlStreamParser {
    pub lines: Vec<Vec<u8>>,
    pub current_line: usize,
}

impl View for ControlStreamParser {
    type V = Seq<Seq<u8>>;

    open spec fn view(&self) -> Seq<Seq<u8>> {
        self.lines.deep_view()
    }
}

impl ControlStreamParser {
    /// Split into lines, strip comments, trim, drop blank lines.
    pub fn new(content: &[u8]) -> (r: ControlStreamParser)
        ensures
            r@ == clean_lines(content@),
            r.current_line == 0,
    {
        let n = content.len();
        let mut lines: Vec<Vec<u8>> = Vec::new();
        let mut idx: usize = 0;
        proof {
            assert(content@.skip(0) =~= content@);
            assert(lines.deep_view() =~~= Seq::<Seq<u8>>::empty());
            assert(lines.deep_view() + clean_lines(content@.skip(0)) =~~= clean_lines(content@));
        }
        while idx < n
            invariant
                idx <= n,
                n == content@.len(),
                clean_lines(content@) == lines.deep_view() + clean_lines(
                    content@.skip(idx as int),
                ),
            decreases n - idx,
        {
            let ghost old_dv = lines.deep_view();
            let ghost tail = content@.skip(idx as int);
            let p = find_line_end(content, idx);
            proof {
                lemma_byte_pos_shift(content@, 10, idx as int, idx as int);
                assert(byte_pos(tail, 10, 0) == p - idx);
                assert(tail.take(p - idx) =~= content@.subrange(idx as int, p as int));
            }
            let raw = subrange_vec(content, idx, p);
            let semi = crate::bytes::find_byte(raw.as_slice(), 59, 0);
            let head = subrange_vec(raw.as_slice(), 0, semi);
            let cleaned = trim(head.as_slice());
            proof {
                assert(raw@.take(byte_pos(raw@, 59, 0)) =~= head@);
                assert(cleaned@ == clean_line(tail.take(p - idx)));
            }
            if cleaned.len() > 0 {
                lines.push(cleaned);
                proof {
                    assert(lines.deep_view() =~~= old_dv.push(clean_line(tail.take(p - idx))));
                }
            }
            if p == n {
                proof {
                    assert(clean_lines(tail) == (if clean_line(tail.take(p - idx)).len() > 0 {
                        seq![clean_line(tail.take(p - idx))]
                    } else {
                        Seq::<Seq<u8>>::empty()
                    }));
                    if clean_line(tail.take(p - idx)).len() > 0 {
                        assert(lines.deep_view() =~~= old_dv + clean_lines(tail));
                    } else {
                        assert(lines.deep_view() =~~= old_dv + clean_lines(tail));
                    }
                }
                return ControlStreamParser { lines, current_line: 0 };
            } else {
                proof {
                    assert(tail.skip(p - idx + 1) =~= content@.skip(p + 1));
                    if clean_line(tail.take(p - idx)).len() > 0 {
                        assert(lines.deep_view() + clean_lines(content@.skip(p + 1)) =~~= old_dv
                            + clean_lines(tail));
                    } else {
                        assert(lines.deep_view() + clean_lines(content@.skip(p + 1)) =~~= old_dv
                            + clean_lines(tail));
                    }
                }
                idx = p + 1;
            }
        }
        proof {
            assert(idx == n);
            assert(content@.skip(n as int) =~= Seq::<u8>::empty());
            assert(clean_lines(content@.skip(idx as int)) =~~= Seq::<Seq<u8>>::empty());
            assert(lines.deep_view() + clean_lines(content@.skip(idx as int))
                =~~= lines.deep_view());
        }
        ControlStreamParser { lines, current_line: 0 }
    }
}

/// First newline at or after `idx`.
fn find_line_end(content: &[u8], idx: usize) -> (r: usize)
    requires
        idx <= content@.len(),
    ensures
        r == byte_pos(content@, 10, idx as int),
        idx <= r <= content@.len(),
{
    crate::bytes::find_byte(content, 10, idx)
}

} // verus!

verus! {

/// The view of a list of decimals.
pub open spec fn decs_view(s: Seq<Decimal>) -> Seq<int> {
    s.map(|i: int, d: Decimal| d@)
}

/// `Option<Decimal>` as its numeric value.
pub open spec fn opt_view(o: Option<Decimal>) -> Option<int> {
    match o {
        Some(d) => Some(d@),
        None => None,
    }
}

/// A theta line with parentheses dropped and commas turned to spaces.
pub open spec fn theta_clean(l: Seq<u8>) -> Seq<u8> {
    replace_seq(strip2_seq(l, 40, 41), 44, 32)
}

/// `(lower, init, upper)` or a bare `init`; the error carries the
/// offending token, or the whole line if it has the wrong shape.
pub open spec fn spec_theta_line(l: Seq<u8>) -> Result<(Option<int>, int, Option<int>), Seq<u8>> {
    let parts = split_ws_seq(theta_clean(l));
    if parts.len() == 1 {
        match parse_nanos(parts[0]) {
            Some(v) => Ok((None, v, None)),
            None => Err(parts[0]),
        }
    } else if parts.len() == 3 {
        match parse_nanos(parts[0]) {
            None => Err(parts[0]),
            Some(lo) => match parse_nanos(parts[1]) {
                None => Err(parts[1]),
                Some(v) => match parse_nanos(parts[2]) {
                    None => Err(parts[2]),
                    Some(hi) => Ok((Some(lo), v, Some(hi))),
                },
            },
        }
    } else {
        Err(l)
    }
}

/// All entries parsed as numbers, each trimmed first.
pub open spec fn parse_all_from(parts: Seq<Seq<u8>>, i: int) -> Option<Seq<int>>
    recommends
        0 <= i <= parts.len(),
    decreases parts.len() - i when 0 <= i <= parts.len()
{
    if i < parts.len() {
        match parse_nanos(trim_seq(parts[i])) {
            None => None,
            Some(v) => match parse_all_from(parts, i + 1) {
                None => None,
                Some(rest) => Some(seq![v] + rest),
            },
        }
    } else {
        Some(Seq::empty())
    }
}

/// An omega line: parentheses dropped, the variance parsed, and
/// converted to CV% in nano-units, `100 * sqrt(variance)`.
pub open spec fn spec_omega_line(l: Seq<u8>) -> Result<int, Seq<u8>> {
    let cleaned = trim_seq(strip2_seq(l, 40, 41));
    match parse_nanos(cleaned) {
        None => Err(l),
        Some(v) => if 0 <= v <= VARIANCE_LIMIT {
            Ok(sqrt_floor(v * pow10(13)))
        } else {
            Err(l)
        },
    }
}

/// A sigma line: parentheses dropped, a comma-separated list of
/// variances, each trimmed and parsed.
pub open spec fn spec_sigma_line(l: Seq<u8>) -> Result<Seq<int>, Seq<u8>> {
    match parse_all_from(split_byte_seq(strip2_seq(l, 40, 41), 44), 0) {
        Some(vs) => Ok(vs),
        None => Err(l),
    }
}

/// `KEY = value`: exactly one `=`, the right side a number. The error
/// carries the right side, or the whole line if `=` is not single.
pub open spec fn spec_extract_numeric(l: Seq<u8>) -> Result<int, Seq<u8>> {
    let p = byte_pos(l, 61, 0);
    if p == l.len() || byte_pos(l, 61, p + 1) != l.len() {
        Err(l)
    } else {
        let rhs = l.subrange(p + 1, l.len() as int);
        match parse_nanos(trim_seq(rhs)) {
            Some(v) => Ok(v),
            None => Err(rhs),
        }
    }
}

/// `KEY = t1, t2, ...`: exactly one `=`, a comma-separated number list.
pub open spec fn spec_extract_times(l: Seq<u8>) -> Result<Seq<int>, Seq<u8>> {
    let p = byte_pos(l, 61, 0);
    if p == l.len() || byte_pos(l, 61, p + 1) != l.len() {
        Err(l)
    } else {
        let rhs = trim_seq(l.subrange(p + 1, l.len() as int));
        match parse_all_from(split_byte_seq(rhs, 44), 0) {
            Some(vs) => Ok(vs),
            None => Err(rhs),
        }
    }
}

impl ControlStreamParser {
    /// Parse a theta entry: `init` or `(lower, init, upper)`.
    pub fn parse_theta_line(&self, line: &[u8]) -> (r: PKResult<
        (Option<Decimal>, Decimal, Option<Decimal>),
    >)
        ensures
            match spec_theta_line(line@) {
                Ok(t) => r matches Ok(u) && (opt_view(u.0), u.1@, opt_view(u.2)) == t,
                Err(p) => r matches Err(PKError::Validation(f)) && f@ == p,
            },
    {
        let stripped = strip2(line, 40, 41);
        let cleaned = replace_byte(stripped.as_slice(), 44, 32);
        let parts = split_ws_vec(cleaned.as_slice());
        proof {
            assert(parts.deep_view() == split_ws_seq(theta_clean(line@)));
        }
        if parts.len() == 1 {
            proof {
                assert(parts.deep_view()[0] =~= parts@[0]@);
            }
            match Decimal::parse(parts[0].as_slice()) {
                Some(v) => Ok((None, v, None)),
                None => Err(PKError::Validation(copy_bytes(parts[0].as_slice()))),
            }
        } else if parts.len() == 3 {
            proof {
                assert(parts.deep_view()[0] =~= parts@[0]@);
                assert(parts.deep_view()[1] =~= parts@[1]@);
                assert(parts.deep_view()[2] =~= parts@[2]@);
            }
            let lo = match Decimal::parse(parts[0].as_slice()) {
                Some(v) => v,
                None => {
                    return Err(PKError::Validation(copy_bytes(parts[0].as_slice())));
                },
            };
            let init = match Decimal::parse(parts[1].as_slice()) {
                Some(v) => v,
                None => {
                    return Err(PKError::Validation(copy_bytes(parts[1].as_slice())));
                },
            };
            let hi = match Decimal::parse(parts[2].as_slice()) {
                Some(v) => v,
                None => {
                    return Err(PKError::Validation(copy_bytes(parts[2].as_slice())));
                },
            };
            Ok((Some(lo), init, Some(hi)))
        } else {
            Err(PKError::Validation(copy_bytes(line)))
        }
    }

    /// Parse an omega entry: a variance, reported as CV%.
    pub fn parse_omega_line(&self, line: &[u8]) -> (r: PKResult<Decimal>)
        ensures
            match spec_omega_line(line@) {
                Ok(v) => r matches Ok(d) && d@ == v,
                Err(p) => r matches Err(PKError::Validation(f)) && f@ == p,
            },
    {
        let stripped = strip2(line, 40, 41);
        let cleaned = trim(stripped.as_slice());
        match Decimal::parse(cleaned.as_slice()) {
            None => Err(PKError::Validation(copy_bytes(line))),
            Some(v) => match v.cv_percent_from_variance() {
                Some(cv) => Ok(cv),
                None => Err(PKError::Validation(copy_bytes(line))),
            },
        }
    }

    /// Parse a sigma entry: one variance, or a comma-separated list.
    pub fn parse_sigma_line(&self, line: &[u8]) -> (r: PKResult<Vec<Decimal>>)
        ensures
            match spec_sigma_line(line@) {
                Ok(vs) => r matches Ok(ds) && decs_view(ds@) == vs,
                Err(p) => r matches Err(PKError::Validation(f)) && f@ == p,
            },
    {
        let stripped = strip2(line, 40, 41);
        let parts = split_byte_vec(stripped.as_slice(), 44);
        match parse_decimal_list(&parts) {
            Some(ds) => Ok(ds),
            None => Err(PKError::Validation(copy_bytes(line))),
        }
    }

    /// Parse `KEY = value`.
    pub fn extract_numeric_value(&self, line: &[u8]) -> (r: PKResult<Decimal>)
        ensures
            match spec_extract_numeric(line@) {
                Ok(v) => r matches Ok(d) && d@ == v,
                Err(p) => r matches Err(PKError::Validation(f)) && f@ == p,
            },
    {
        let n = line.len();
        let p = crate::bytes::find_byte(line, 61, 0);
        if p == n {
            return Err(PKError::Validation(copy_bytes(line)));
        }
        let q = crate::bytes::find_byte(line, 61, p + 1);
        if q != n {
            return Err(PKError::Validation(copy_bytes(line)));
        }
        let rhs = subrange_vec(line, p + 1, n);
        let cleaned = trim(rhs.as_slice());
        match Decimal::parse(cleaned.as_slice()) {
            Some(v) => Ok(v),
            None => Err(PKError::Validation(rhs)),
        }
    }

    /// Parse `KEY = t1, t2, ...`.
    pub fn extract_time_values(&self, line: &[u8]) -> (r: PKResult<Vec<Decimal>>)
        ensures
            match spec_extract_times(line@) {
                Ok(vs) => r matches Ok(ds) && decs_view(ds@) == vs,
                Err(p) => r matches Err(PKError::Validation(f)) && f@ == p,
            },
    {
        let n = line.len();
        let p = crate::bytes::find_byte(line, 61, 0);
        if p == n {
            return Err(PKError::Validation(copy_bytes(line)));
        }
        let q = crate::bytes::find_byte(line, 61, p + 1);
        if q != n {
            return Err(PKError::Validation(copy_bytes(line)));
        }
        let rhs = subrange_vec(line, p + 1, n);
        let cleaned = trim(rhs.as_slice());
        let parts = split_byte_vec(cleaned.as_slice(), 44);
        match parse_decimal_list(&parts) {
            Some(ds) => Ok(ds),
            None => Err(PKError::Validation(cleaned)),
        }
    }
}

/// Parse every entry, each trimmed, or fail.
fn parse_decimal_list(parts: &Vec<Vec<u8>>) -> (r: Option<Vec<Decimal>>)
    ensures
        match r {
            Some(ds) => parse_all_from(parts.deep_view(), 0) == Some(decs_view(ds@)),
            None => parse_all_from(parts.deep_view(), 0) is None,
        },
{
    let ghost dv = parts.deep_view();
    let n = parts.len();
    let mut ds: Vec<Decimal> = Vec::new();
    let mut i: usize = 0;
    proof {
        assert(dv.len() == n);
    }
    while i < n
        invariant
            i <= n == dv.len(),
            dv == parts.deep_view(),
            decs_view(ds@).len() == i,
            parse_all_from(dv, 0).is_some() == parse_all_from(dv, i as int).is_some(),
            parse_all_from(dv, i as int) matches Some(rest) ==> parse_all_from(dv, 0) == Some(
                decs_view(ds@) + rest,
            ),
        decreases n - i,
    {
        proof {
            assert(dv[i as int] =~= parts@[i as int]@);
        }
        let cleaned = trim(parts[i].as_slice());
        match Decimal::parse(cleaned.as_slice()) {
            None => {
                return None;
            },
            Some(v) => {
                let ghost old_ds = ds@;
                ds.push(v);
                proof {
                    assert(decs_view(ds@) =~= decs_view(old_ds).push(v@));
                    if parse_all_from(dv, i + 1) is Some {
                        let rest = parse_all_from(dv, i + 1)->Some_0;
                        assert(parse_all_from(dv, i as int) == Some(seq![v@] + rest));
                        assert(decs_view(old_ds) + (seq![v@] + rest) =~= decs_view(ds@) + rest);
                    }
                }
            },
        }
        i = i + 1;
    }
    proof {
        assert(parse_all_from(dv, n as int) == Some(Seq::<int>::empty()));
        assert(decs_view(ds@) + Seq::<int>::empty() =~= decs_view(ds@));
    }
    Some(ds)
}

} // verus!

verus! {

pub open spec fn n_wt() -> Seq<u8> {
    seq![87u8, 84u8]  // WT
}

pub open spec fn n_weight() -> Seq<u8> {
    seq![87u8, 69u8, 73u8, 71u8, 72u8, 84u8]  // WEIGHT
}

pub open spec fn n_age() -> Seq<u8> {
    seq![65u8, 71u8, 69u8]  // AGE
}

pub open spec fn n_height() -> Seq<u8> {
    seq![72u8, 69u8, 73u8, 71u8, 72u8, 84u8]  // HEIGHT
}

pub open spec fn n_bmi() -> Seq<u8> {
    seq![66u8, 77u8, 73u8]  // BMI
}

pub open spec fn n_crcl() -> Seq<u8> {
    seq![67u8, 82u8, 67u8, 76u8]  // CRCL
}

pub open spec fn n_sex() -> Seq<u8> {
    seq![83u8, 69u8, 88u8]  // SEX
}

pub open spec fn n_gender() -> Seq<u8> {
    seq![71u8, 69u8, 78u8, 68u8, 69u8, 82u8]  // GENDER
}

pub open spec fn n_race() -> Seq<u8> {
    seq![82u8, 65u8, 67u8, 69u8]  // RACE
}

pub open spec fn n_ethnic() -> Seq<u8> {
    seq![69u8, 84u8, 72u8, 78u8, 73u8, 67u8]  // ETHNIC
}

/// The reference value a covariate name implies, in nano-units.
pub open spec fn cov_reference(cov: Seq<u8>) -> int {
    if cov == n_wt() || cov == n_weight() {
        70_000_000_000
    } else if cov == n_age() {
        40_000_000_000
    } else if cov == n_height() {
        170_000_000_000
    } else if cov == n_bmi() {
        25_000_000_000
    } else if cov == n_crcl() {
        100_000_000_000
    } else if cov == n_sex() || cov == n_gender() {
        0
    } else if cov == n_race() || cov == n_ethnic() {
        1_000_000_000
    } else {
        1_000_000_000
    }
}

/// The covariate model a name implies: categorical names are linear,
/// continuous ones power; unknown names go by the effect value.
pub open spec fn cov_model(cov: Seq<u8>, v: int) -> CovariateModel {
    if cov == n_sex() || cov == n_race() || cov == n_gender() || cov == n_ethnic() {
        CovariateModel::Linear
    } else if cov == n_wt() || cov == n_weight() || cov == n_age() || cov == n_height() || cov
        == n_bmi() || cov == n_crcl() {
        CovariateModel::Power
    } else if v == 0 || v == 1_000_000_000 || v == -1_000_000_000 {
        CovariateModel::Linear
    } else {
        CovariateModel::Power
    }
}

/// A covariate line `COV_{PARAM}_{COV}_EFFECT = value`: the key is
/// upper-cased, split on `_`, and must have at least four parts; the
/// mapping key is `{PARAM}_{COV}`.
pub open spec fn spec_covariate_line(l: Seq<u8>) -> Result<(Seq<u8>, int, int, CovariateModel), Seq<u8>> {
    let p = byte_pos(l, 61, 0);
    if p == l.len() || byte_pos(l, 61, p + 1) != l.len() {
        Err(l)
    } else {
        let key = upper_seq(trim_seq(l.take(p)));
        let rhs = l.subrange(p + 1, l.len() as int);
        match parse_nanos(trim_seq(rhs)) {
            None => Err(rhs),
            Some(v) => {
                let kp = split_byte_seq(key, 95);
                if kp.len() < 4 {
                    Err(key)
                } else {
                    Ok((kp[1] + seq![95u8] + kp[2], v, cov_reference(kp[2]), cov_model(kp[2], v)))
                }
            },
        }
    }
}

/// Reference and model for a covariate name and effect value.
fn cov_defaults(cov: &[u8], v: Decimal) -> (r: (Decimal, CovariateModel))
    ensures
        r.0@ == cov_reference(cov@),
        r.1 == cov_model(cov@, v@),
{
    let wt = vec![87u8, 84u8];
    let weight = vec![87u8, 69u8, 73u8, 71u8, 72u8, 84u8];
    let age = vec![65u8, 71u8, 69u8];
    let height = vec![72u8, 69u8, 73u8, 71u8, 72u8, 84u8];
    let bmi = vec![66u8, 77u8, 73u8];
    let crcl = vec![67u8, 82u8, 67u8, 76u8];
    let sex = vec![83u8, 69u8, 88u8];
    let gender = vec![71u8, 69u8, 78u8, 68u8, 69u8, 82u8];
    let race = vec![82u8, 65u8, 67u8, 69u8];
    let ethnic = vec![69u8, 84u8, 72u8, 78u8, 73u8, 67u8];
    proof {
        assert(wt@ =~= n_wt());
        assert(weight@ =~= n_weight());
        assert(age@ =~= n_age());
        assert(height@ =~= n_height());
        assert(bmi@ =~= n_bmi());
        assert(crcl@ =~= n_crcl());
        assert(sex@ =~= n_sex());
        assert(gender@ =~= n_gender());
        assert(race@ =~= n_race());
        assert(ethnic@ =~= n_ethnic());
    }
    let is_wt = bytes_eq(cov, wt.as_slice()) || bytes_eq(cov, weight.as_slice());
    let is_age = bytes_eq(cov, age.as_slice());
    let is_height = bytes_eq(cov, height.as_slice());
    let is_bmi = bytes_eq(cov, bmi.as_slice());
    let is_crcl = bytes_eq(cov, crcl.as_slice());
    let is_sex = bytes_eq(cov, sex.as_slice()) || bytes_eq(cov, gender.as_slice());
    let is_race = bytes_eq(cov, race.as_slice()) || bytes_eq(cov, ethnic.as_slice());
    let reference: Decimal = if is_wt {
        Decimal::from_nanos(70_000_000_000)
    } else if is_age {
        Decimal::from_nanos(40_000_000_000)
    } else if is_height {
        Decimal::from_nanos(170_000_000_000)
    } else if is_bmi {
        Decimal::from_nanos(25_000_000_000)
    } else if is_crcl {
        Decimal::from_nanos(100_000_000_000)
    } else if is_sex {
        Decimal::from_nanos(0)
    } else {
        Decimal::from_nanos(1_000_000_000)
    };
    let model: CovariateModel = if is_sex || is_race {
        CovariateModel::Linear
    } else if is_wt || is_age || is_height || is_bmi || is_crcl {
        CovariateModel::Power
    } else if v.nanos == 0 || v.nanos == 1_000_000_000 || v.nanos == -1_000_000_000 {
        CovariateModel::Linear
    } else {
        CovariateModel::Power
    };
    (reference, model)
}

impl ControlStreamParser {
    /// Parse one covariate specification line.
    pub fn parse_covariate_line(&self, line: &[u8]) -> (r: PKResult<(Vec<u8>, CovariateConfig)>)
        ensures
            match spec_covariate_line(line@) {
                Ok(t) => r matches Ok(pc) && pc.0@ == t.0 && pc.1.effect@ == t.1
                    && pc.1.reference@ == t.2 && pc.1.model == t.3,
                Err(p) => r matches Err(PKError::Validation(f)) && f@ == p,
            },
    {
        let n = line.len();
        let p = crate::bytes::find_byte(line, 61, 0);
        if p == n {
            return Err(PKError::Validation(copy_bytes(line)));
        }
        let q = crate::bytes::find_byte(line, 61, p + 1);
        if q != n {
            return Err(PKError::Validation(copy_bytes(line)));
        }
        let lhs = subrange_vec(line, 0, p);
        let lhs_trim = trim(lhs.as_slice());
        let key = to_upper(lhs_trim.as_slice());
        proof {
            assert(line@.take(p as int) =~= lhs@);
        }
        let rhs = subrange_vec(line, p + 1, n);
        let rhs_trim = trim(rhs.as_slice());
        let value = match Decimal::parse(rhs_trim.as_slice()) {
            Some(v) => v,
            None => {
                return Err(PKError::Validation(rhs));
            },
        };
        let kp = split_byte_vec(key.as_slice(), 95);
        if kp.len() < 4 {
            return Err(PKError::Validation(key));
        }
        proof {
            assert(kp.deep_view()[1] =~= kp@[1]@);
            assert(kp.deep_view()[2] =~= kp@[2]@);
        }
        let mut param = copy_bytes(kp[1].as_slice());
        param.push(95);
        let mut covname = copy_bytes(kp[2].as_slice());
        param.append(&mut covname);
        proof {
            assert(param@ =~= kp.deep_view()[1] + seq![95u8] + kp.deep_view()[2]);
        }
        let (reference, model) = cov_defaults(kp[2].as_slice(), value);
        Ok((param, CovariateConfig { effect: value, reference, model }))
    }
}

} // verus!

verus! {

/// A record line: begins with `$`.
pub open spec fn dollar_line(l: Seq<u8>) -> bool {
    l.len() > 0 && l[0] == 36
}

/// First record line at or after `i`, or the length.
pub open spec fn block_end(ls: Seq<Seq<u8>>, i: int) -> int
    recommends
        0 <= i <= ls.len(),
    decreases ls.len() - i when 0 <= i <= ls.len()
{
    if i < ls.len() && !dollar_line(ls[i]) {
        block_end(ls, i + 1)
    } else {
        i
    }
}

pub proof fn lemma_block_end_bounds(ls: Seq<Seq<u8>>, i: int)
    requires
        0 <= i <= ls.len(),
    ensures
        i <= block_end(ls, i) <= ls.len(),
    decreases ls.len() - i,
{
    if i < ls.len() && !dollar_line(ls[i]) {
        lemma_block_end_bounds(ls, i + 1);
    }
}

pub open spec fn kw_advan1() -> Seq<u8> {
    seq![65u8, 68u8, 86u8, 65u8, 78u8, 49u8]  // ADVAN1
}

pub open spec fn kw_advan3() -> Seq<u8> {
    seq![65u8, 68u8, 86u8, 65u8, 78u8, 51u8]  // ADVAN3
}

pub open spec fn kw_advan11() -> Seq<u8> {
    seq![65u8, 68u8, 86u8, 65u8, 78u8, 49u8, 49u8]  // ADVAN11
}

/// The compartment count a `$SUBROUTINES` line selects. `ADVAN11` is
/// checked before `ADVAN1`, which it contains.
pub open spec fn spec_subroutines(l: Seq<u8>) -> Result<u8, Seq<u8>> {
    if contains_seq(l, kw_advan11()) {
        Ok(3u8)
    } else if contains_seq(l, kw_advan3()) {
        Ok(2u8)
    } else if contains_seq(l, kw_advan1()) {
        Ok(1u8)
    } else {
        Err(l)
    }
}

/// Parameter positions of a `$THETA` / `$OMEGA` block.
pub open spec fn spec_theta_names(c: u8) -> Seq<Seq<u8>> {
    if c == 1 {
        seq![crate::config::name_cl(), crate::config::name_v(), crate::config::name_ka()]
    } else if c == 2 {
        seq![
            crate::config::name_cl(),
            crate::config::name_v1(),
            crate::config::name_q(),
            crate::config::name_v2(),
            crate::config::name_ka(),
        ]
    } else {
        seq![
            crate::config::name_cl(),
            crate::config::name_v1(),
            crate::config::name_q2(),
            crate::config::name_v2(),
            crate::config::name_q3(),
            crate::config::name_v3(),
            crate::config::name_ka(),
        ]
    }
}

fn theta_names_vec(c: u8) -> (r: Vec<Vec<u8>>)
    requires
        crate::config::valid_compartments(c),
    ensures
        r.deep_view() == spec_theta_names(c),
{
    let mut r: Vec<Vec<u8>> = Vec::new();
    if c == 1 {
        r.push(vec![67u8, 76u8]);
        r.push(vec![86u8]);
    } else if c == 2 {
        r.push(vec![67u8, 76u8]);
        r.push(vec![86u8, 49u8]);
        r.push(vec![81u8]);
        r.push(vec![86u8, 50u8]);
    } else {
        r.push(vec![67u8, 76u8]);
        r.push(vec![86u8, 49u8]);
        r.push(vec![81u8, 50u8]);
        r.push(vec![86u8, 50u8]);
        r.push(vec![81u8, 51u8]);
        r.push(vec![86u8, 51u8]);
    }
    r.push(vec![75u8, 65u8]);
    proof {
        assert(r.deep_view() =~~= spec_theta_names(c));
    }
    r
}

/// The parameter entry a theta line yields.
pub open spec fn theta_cfg(t: (Option<int>, int, Option<int>)) -> crate::config::ParameterConfig {
    crate::config::ParameterConfig {
        theta: Decimal { nanos: t.1 as i128 },
        omega: None,
        bounds: if t.0 is Some && t.2 is Some {
            Some(
                (
                    Decimal { nanos: t.0->Some_0 as i128 },
                    Decimal { nanos: t.2->Some_0 as i128 },
                ),
            )
        } else {
            None
        },
    }
}

/// The `$THETA` block: one line per parameter position, inserted in
/// order, until a record line or the position list is exhausted.
pub open spec fn theta_fold(
    ls: Seq<Seq<u8>>,
    names: Seq<Seq<u8>>,
    m: Seq<(Seq<u8>, crate::config::ParameterConfig)>,
    i: int,
    pi: int,
) -> Result<(Seq<(Seq<u8>, crate::config::ParameterConfig)>, int), Seq<u8>>
    recommends
        0 <= i <= ls.len(),
        0 <= pi,
    decreases ls.len() - i when 0 <= i <= ls.len()
{
    if i < ls.len() && pi < names.len() && !dollar_line(ls[i]) {
        match spec_theta_line(ls[i]) {
            Err(p) => Err(p),
            Ok(t) => theta_fold(
                ls,
                names,
                crate::config::pm_insert(m, names[pi], theta_cfg(t)),
                i + 1,
                pi + 1,
            ),
        }
    } else {
        Ok((m, i))
    }
}

/// The `$OMEGA` block: one variance per parameter position, stored as
/// CV% on parameters that exist.
pub open spec fn omega_fold(
    ls: Seq<Seq<u8>>,
    names: Seq<Seq<u8>>,
    m: Seq<(Seq<u8>, crate::config::ParameterConfig)>,
    i: int,
    pi: int,
) -> Result<(Seq<(Seq<u8>, crate::config::ParameterConfig)>, int), Seq<u8>>
    recommends
        0 <= i <= ls.len(),
        0 <= pi,
    decreases ls.len() - i when 0 <= i <= ls.len()
{
    if i < ls.len() && pi < names.len() && !dollar_line(ls[i]) {
        match spec_omega_line(ls[i]) {
            Err(p) => Err(p),
            Ok(cv) => omega_fold(
                ls,
                names,
                crate::config::pm_set_omega(m, names[pi], Decimal { nanos: cv as i128 }),
                i + 1,
                pi + 1,
            ),
        }
    } else {
        Ok((m, i))
    }
}

impl ControlStreamParser {
    /// Read the `$SUBROUTINES` line and start an empty model block.
    pub fn parse_subroutines(&mut self) -> (r: PKResult<crate::config::ModelConfig>)
        requires
            old(self).current_line < old(self)@.len(),
        ensures
            final(self)@ == old(self)@,
            final(self).current_line == old(self).current_line + 1,
            match spec_subroutines(old(self)@[old(self).current_line as int]) {
                Ok(c) => r matches Ok(mc) && mc.compartments == c && mc.parameters@
                    == Seq::<(Seq<u8>, crate::config::ParameterConfig)>::empty(),
                Err(p) => r matches Err(PKError::InvalidModel(f)) && f@ == p,
            },
    {
        let _n = self.lines.len();
        let line = &self.lines[self.current_line];
        proof {
            assert(self@[self.current_line as int] =~= line@);
        }
        let a11 = vec![65u8, 68u8, 86u8, 65u8, 78u8, 49u8, 49u8];
        let a3 = vec![65u8, 68u8, 86u8, 65u8, 78u8, 51u8];
        let a1 = vec![65u8, 68u8, 86u8, 65u8, 78u8, 49u8];
        proof {
            assert(a11@ =~= kw_advan11());
            assert(a3@ =~= kw_advan3());
            assert(a1@ =~= kw_advan1());
        }
        let compartments: u8 = if contains(line.as_slice(), a11.as_slice()) {
            3
        } else if contains(line.as_slice(), a3.as_slice()) {
            2
        } else if contains(line.as_slice(), a1.as_slice()) {
            1
        } else {
            let e = copy_bytes(self.lines[self.current_line].as_slice());
            self.current_line = self.current_line + 1;
            return Err(PKError::InvalidModel(e));
        };
        self.current_line = self.current_line + 1;
        Ok(
            crate::config::ModelConfig {
                compartments,
                parameters: crate::config::ParameterMap::new(),
            },
        )
    }

    /// Skip the `$PK` block: its content is covered by `$THETA`.
    pub fn parse_pk_block(&mut self, model_config: &mut crate::config::ModelConfig) -> (r:
        PKResult<()>)
        requires
            old(self).current_line < old(self)@.len(),
        ensures
            r is Ok,
            final(self)@ == old(self)@,
            final(self).current_line == block_end(old(self)@, old(self).current_line + 1),
            *final(model_config) == *old(model_config),
    {
        let _n = self.lines.len();
        self.current_line = self.current_line + 1;
        self.skip_to_record();
        Ok(())
    }

    /// Advance to the next record line.
    fn skip_to_record(&mut self)
        requires
            old(self).current_line <= old(self)@.len(),
        ensures
            final(self)@ == old(self)@,
            final(self).lines == old(self).lines,
            final(self).current_line == block_end(old(self)@, old(self).current_line as int),
    {
        let n = self.lines.len();
        while self.current_line < n && !(self.lines[self.current_line].len() > 0
            && self.lines[self.current_line][0] == 36)
            invariant
                self.current_line <= n == self@.len(),
                self.lines == old(self).lines,
                block_end(self@, old(self).current_line as int) == block_end(
                    self@,
                    self.current_line as int,
                ),
            decreases n - self.current_line,
        {
            proof {
                assert(self@[self.current_line as int] =~= self.lines@[self.current_line as int]@);
            }
            self.current_line = self.current_line + 1;
        }
        proof {
            if self.current_line < n {
                assert(self@[self.current_line as int] =~= self.lines@[self.current_line as int]@);
            }
        }
    }

    /// Read the `$THETA` block into the model's parameters, by position.
    pub fn parse_theta_block(&mut self, model_config: &mut crate::config::ModelConfig) -> (r:
        PKResult<()>)
        requires
            old(self).current_line < old(self)@.len(),
        ensures
            final(self)@ == old(self)@,
            final(model_config).compartments == old(model_config).compartments,
            !crate::config::valid_compartments(old(model_config).compartments) ==> (r matches Err(
                PKError::InvalidModel(f),
            ) && f@ == crate::config::field_compartments() && final(self).current_line == old(self).current_line + 1 && *final(model_config) == *old(model_config)),
            crate::config::valid_compartments(old(model_config).compartments) ==> match theta_fold(
                old(self)@,
                spec_theta_names(old(model_config).compartments),
                old(model_config).parameters@,
                old(self).current_line + 1,
                0,
            ) {
                Ok(t) => r is Ok && final(model_config).parameters@ == t.0 && final(self).current_line == t.1,
                Err(p) => r matches Err(PKError::Validation(f)) && f@ == p,
            },
    {
        let n = self.lines.len();
        self.current_line = self.current_line + 1;
        let c = model_config.compartments;
        if !(c == 1 || c == 2 || c == 3) {
            return Err(
                PKError::InvalidModel(
                    vec![99u8, 111u8, 109u8, 112u8, 97u8, 114u8, 116u8, 109u8, 101u8, 110u8, 116u8, 115u8],
                ),
            );
        }
        let names = theta_names_vec(c);
        let ghost ls = self@;
        let ghost i0 = self.current_line as int;
        let ghost m0 = model_config.parameters@;
        let nn = names.len();
        let mut pi: usize = 0;
        while self.current_line < n && pi < nn && !(self.lines[self.current_line].len() > 0
            && self.lines[self.current_line][0] == 36)
            invariant
                self.current_line <= n == ls.len(),
                self@ == ls,
                ls == old(self)@,
                i0 == old(self).current_line + 1,
                m0 == old(model_config).parameters@,
                c == old(model_config).compartments,
                pi <= nn == names.deep_view().len(),
                names.deep_view() == spec_theta_names(c),
                model_config.compartments == c,
                crate::config::valid_compartments(c),
                theta_fold(ls, names.deep_view(), m0, i0, 0) == theta_fold(
                    ls,
                    names.deep_view(),
                    model_config.parameters@,
                    self.current_line as int,
                    pi as int,
                ),
            decreases n - self.current_line,
        {
            proof {
                assert(ls[self.current_line as int] =~= self.lines@[self.current_line as int]@);
                assert(names.deep_view()[pi as int] =~= names@[pi as int]@);
            }
            let line = copy_bytes(self.lines[self.current_line].as_slice());
            let t = match self.parse_theta_line(line.as_slice()) {
                Ok(t) => t,
                Err(e) => {
                    return Err(e);
                },
            };
            let bounds: Option<(Decimal, Decimal)> = match (t.0, t.2) {
                (Some(lo), Some(hi)) => Some((lo, hi)),
                _ => None,
            };
            let cfg = crate::config::ParameterConfig { theta: t.1, omega: None, bounds };
            proof {
                assert(cfg == theta_cfg(
                    (opt_view(t.0), t.1@, opt_view(t.2)),
                ));
            }
            model_config.parameters.insert(copy_bytes(names[pi].as_slice()), cfg);
            pi = pi + 1;
            self.current_line = self.current_line + 1;
        }
        proof {
            if self.current_line < n && pi < nn {
                assert(ls[self.current_line as int] =~= self.lines@[self.current_line as int]@);
            }
        }
        Ok(())
    }

    /// Read the `$OMEGA` block: variances, as CV%, by position.
    pub fn parse_omega_block(&mut self, model_config: &mut crate::config::ModelConfig) -> (r:
        PKResult<()>)
        requires
            old(self).current_line < old(self)@.len(),
        ensures
            final(self)@ == old(self)@,
            final(model_config).compartments == old(model_config).compartments,
            !crate::config::valid_compartments(old(model_config).compartments) ==> (r matches Err(
                PKError::InvalidModel(f),
            ) && f@ == crate::config::field_compartments() && final(self).current_line == old(self).current_line + 1 && *final(model_config) == *old(model_config)),
            crate::config::valid_compartments(old(model_config).compartments) ==> match omega_fold(
                old(self)@,
                spec_theta_names(old(model_config).compartments),
                old(model_config).parameters@,
                old(self).current_line + 1,
                0,
            ) {
                Ok(t) => r is Ok && final(model_config).parameters@ == t.0 && final(self).current_line == t.1,
                Err(p) => r matches Err(PKError::Validation(f)) && f@ == p,
            },
    {
        let n = self.lines.len();
        self.current_line = self.current_line + 1;
        let c = model_config.compartments;
        if !(c == 1 || c == 2 || c == 3) {
            return Err(
                PKError::InvalidModel(
                    vec![99u8, 111u8, 109u8, 112u8, 97u8, 114u8, 116u8, 109u8, 101u8, 110u8, 116u8, 115u8],
                ),
            );
        }
        let names = theta_names_vec(c);
        let ghost ls = self@;
        let ghost i0 = self.current_line as int;
        let ghost m0 = model_config.parameters@;
        let nn = names.len();
        let mut pi: usize = 0;
        while self.current_line < n && pi < nn && !(self.lines[self.current_line].len() > 0
            && self.lines[self.current_line][0] == 36)
            invariant
                self.current_line <= n == ls.len(),
                self@ == ls,
                ls == old(self)@,
                i0 == old(self).current_line + 1,
                m0 == old(model_config).parameters@,
                c == old(model_config).compartments,
                pi <= nn == names.deep_view().len(),
                names.deep_view() == spec_theta_names(c),
                model_config.compartments == c,
                crate::config::valid_compartments(c),
                omega_fold(ls, names.deep_view(), m0, i0, 0) == omega_fold(
                    ls,
                    names.deep_view(),
                    model_config.parameters@,
                    self.current_line as int,
                    pi as int,
                ),
            decreases n - self.current_line,
        {
            proof {
                assert(ls[self.current_line as int] =~= self.lines@[self.current_line as int]@);
                assert(names.deep_view()[pi as int] =~= names@[pi as int]@);
            }
            let line = copy_bytes(self.lines[self.current_line].as_slice());
            let cv = match self.parse_omega_line(line.as_slice()) {
                Ok(v) => v,
                Err(e) => {
                    return Err(e);
                },
            };
            model_config.parameters.set_omega(names[pi].as_slice(), cv);
            pi = pi + 1;
            self.current_line = self.current_line + 1;
        }
        proof {
            if self.current_line < n && pi < nn {
                assert(ls[self.current_line as int] =~= self.lines@[self.current_line as int]@);
            }
        }
        Ok(())
    }
}

} // verus!

verus! {

pub open spec fn kw_model() -> Seq<u8> {
    seq![77u8, 79u8, 68u8, 69u8, 76u8]  // MODEL
}

pub open spec fn kw_additive() -> Seq<u8> {
    seq![65u8, 68u8, 68u8, 73u8, 84u8, 73u8, 86u8, 69u8]  // ADDITIVE
}

pub open spec fn kw_combined() -> Seq<u8> {
    seq![67u8, 79u8, 77u8, 66u8, 73u8, 78u8, 69u8, 68u8]  // COMBINED
}

pub open spec fn kw_proportional() -> Seq<u8> {
    seq![80u8, 82u8, 79u8, 80u8, 79u8, 82u8, 84u8, 73u8, 79u8, 78u8, 65u8, 76u8]  // PROPORTIONAL
}

pub open spec fn kw_route() -> Seq<u8> {
    seq![82u8, 79u8, 85u8, 84u8, 69u8]  // ROUTE
}

pub open spec fn kw_oral() -> Seq<u8> {
    seq![79u8, 82u8, 65u8, 76u8]  // ORAL
}

pub open spec fn kw_ivbolus() -> Seq<u8> {
    seq![73u8, 86u8, 66u8, 79u8, 76u8, 85u8, 83u8]  // IVBOLUS
}

pub open spec fn kw_infusion() -> Seq<u8> {
    seq![73u8, 78u8, 70u8, 85u8, 83u8, 73u8, 79u8, 78u8]  // INFUSION
}

pub open spec fn kw_amount() -> Seq<u8> {
    seq![65u8, 77u8, 79u8, 85u8, 78u8, 84u8]  // AMOUNT
}

pub open spec fn kw_times() -> Seq<u8> {
    seq![84u8, 73u8, 77u8, 69u8, 83u8]  // TIMES
}

pub open spec fn kw_duration() -> Seq<u8> {
    seq![68u8, 85u8, 82u8, 65u8, 84u8, 73u8, 79u8, 78u8]  // DURATION
}

pub open spec fn kw_bioavailability() -> Seq<u8> {
    seq![66u8, 73u8, 79u8, 65u8, 86u8, 65u8, 73u8, 76u8, 65u8, 66u8, 73u8, 76u8, 73u8, 84u8, 89u8]  // BIOAVAILABILITY
}

pub open spec fn kw_lag_time() -> Seq<u8> {
    seq![76u8, 65u8, 71u8, 95u8, 84u8, 73u8, 77u8, 69u8]  // LAG_TIME
}

pub open spec fn kw_weight_mean() -> Seq<u8> {
    seq![87u8, 69u8, 73u8, 71u8, 72u8, 84u8, 95u8, 77u8, 69u8, 65u8, 78u8]  // WEIGHT_MEAN
}

pub open spec fn kw_weight_sd() -> Seq<u8> {
    seq![87u8, 69u8, 73u8, 71u8, 72u8, 84u8, 95u8, 83u8, 68u8]  // WEIGHT_SD
}

pub open spec fn kw_age_mean() -> Seq<u8> {
    seq![65u8, 71u8, 69u8, 95u8, 77u8, 69u8, 65u8, 78u8]  // AGE_MEAN
}

pub open spec fn kw_age_sd() -> Seq<u8> {
    seq![65u8, 71u8, 69u8, 95u8, 83u8, 68u8]  // AGE_SD
}

pub open spec fn kw_cov_prefix() -> Seq<u8> {
    seq![67u8, 79u8, 86u8, 95u8]  // COV_
}

pub open spec fn kw_time_points() -> Seq<u8> {
    seq![84u8, 73u8, 77u8, 69u8, 95u8, 80u8, 79u8, 73u8, 78u8, 84u8, 83u8]  // TIME_POINTS
}

pub open spec fn kw_method() -> Seq<u8> {
    seq![77u8, 69u8, 84u8, 72u8, 79u8, 68u8]  // METHOD
}

pub open spec fn kw_rk4() -> Seq<u8> {
    seq![82u8, 75u8, 52u8]  // RK4
}

pub open spec fn kw_euler() -> Seq<u8> {
    seq![69u8, 85u8, 76u8, 69u8, 82u8]  // EULER
}


/// Keyword test on the upper-cased line.
fn line_has(upper: &Vec<u8>, kw: &Vec<u8>) -> (r: bool)
    ensures
        r == contains_seq(upper@, kw@),
{
    contains(upper.as_slice(), kw.as_slice())
}

/// Decimals of a list of nano-unit values.
pub open spec fn decs_of(vs: Seq<int>) -> Seq<Decimal> {
    vs.map(|i: int, v: int| Decimal { nanos: v as i128 })
}

/// Residual-error model kinds a `$SIGMA` block can select.
#[derive(Clone, Copy, Debug, PartialEq, Eq, Structural)]
pub enum SigmaModelKind {
    Proportional,
    Additive,
    Combined,
}

/// The error model before any `$SIGMA` entry: proportional, σ 0.1.
pub open spec fn default_error_model() -> crate::config::ErrorModel {
    crate::config::ErrorModel::Proportional { sigma: Decimal { nanos: 100_000_000 } }
}

/// The kind a `MODEL = ...` line selects; unrecognised lines keep `k`.
pub open spec fn sigma_kind_step(k: SigmaModelKind, u: Seq<u8>) -> SigmaModelKind {
    if contains_seq(u, kw_additive()) {
        SigmaModelKind::Additive
    } else if contains_seq(u, kw_combined()) {
        SigmaModelKind::Combined
    } else if contains_seq(u, kw_proportional()) {
        SigmaModelKind::Proportional
    } else {
        k
    }
}

/// A variance is convertible when it is in range.
pub open spec fn sd_ok(v: int) -> bool {
    0 <= v <= VARIANCE_LIMIT
}

/// Its standard deviation in nano-units.
pub open spec fn sd_val(v: int) -> Decimal {
    Decimal { nanos: sqrt_floor(v * pow10(9)) as i128 }
}

/// The error model a sigma value list builds under kind `k`.
pub open spec fn sigma_step(k: SigmaModelKind, vs: Seq<int>, l: Seq<u8>) -> Result<
    crate::config::ErrorModel,
    Seq<u8>,
> {
    if vs.len() == 0 || !sd_ok(vs[0]) {
        Err(l)
    } else {
        match k {
            SigmaModelKind::Proportional => Ok(
                crate::config::ErrorModel::Proportional { sigma: sd_val(vs[0]) },
            ),
            SigmaModelKind::Additive => Ok(
                crate::config::ErrorModel::Additive { sigma: sd_val(vs[0]) },
            ),
            SigmaModelKind::Combined => if vs.len() > 1 {
                if sd_ok(vs[1]) {
                    Ok(
                        crate::config::ErrorModel::Combined {
                            sigma_prop: sd_val(vs[0]),
                            sigma_add: sd_val(vs[1]),
                        },
                    )
                } else {
                    Err(l)
                }
            } else {
                Ok(
                    crate::config::ErrorModel::Combined {
                        sigma_prop: sd_val(vs[0]),
                        sigma_add: Decimal { nanos: 100_000_000 },
                    },
                )
            },
        }
    }
}

/// The `$SIGMA` block: `MODEL = ...` lines pick the kind, value lines
/// (variances) build the model; `σ = sqrt(variance)`.
pub open spec fn sigma_fold(
    ls: Seq<Seq<u8>>,
    i: int,
    em: crate::config::ErrorModel,
    k: SigmaModelKind,
) -> Result<(crate::config::ErrorModel, int), Seq<u8>>
    recommends
        0 <= i <= ls.len(),
    decreases ls.len() - i when 0 <= i <= ls.len()
{
    if i < ls.len() && !dollar_line(ls[i]) {
        let u = upper_seq(ls[i]);
        if contains_seq(u, kw_model()) {
            sigma_fold(ls, i + 1, em, sigma_kind_step(k, u))
        } else {
            match spec_sigma_line(ls[i]) {
                Err(p) => Err(p),
                Ok(vs) => match sigma_step(k, vs, ls[i]) {
                    Err(p) => Err(p),
                    Ok(em2) => sigma_fold(ls, i + 1, em2, k),
                },
            }
        }
    } else {
        Ok((em, i))
    }
}

/// The default observation grid: 0, 1, 2, 4, 8, 12, 24.
pub open spec fn default_time_points() -> Seq<Decimal> {
    seq![
        Decimal { nanos: 0 },
        Decimal { nanos: 1_000_000_000 },
        Decimal { nanos: 2_000_000_000 },
        Decimal { nanos: 4_000_000_000 },
        Decimal { nanos: 8_000_000_000 },
        Decimal { nanos: 12_000_000_000 },
        Decimal { nanos: 24_000_000_000 },
    ]
}

fn default_time_points_vec() -> (r: Vec<Decimal>)
    ensures
        r@ == default_time_points(),
{
    let r: Vec<Decimal> = vec![
        Decimal { nanos: 0 },
        Decimal { nanos: 1_000_000_000 },
        Decimal { nanos: 2_000_000_000 },
        Decimal { nanos: 4_000_000_000 },
        Decimal { nanos: 8_000_000_000 },
        Decimal { nanos: 12_000_000_000 },
        Decimal { nanos: 24_000_000_000 },
    ];
    proof {
        assert(r@ =~= default_time_points());
    }
    r
}

impl ControlStreamParser {
    /// Read the `$SIGMA` block into a simulation block with the default
    /// grid, analytical integration and no tolerance.
    pub fn parse_sigma_block(&mut self) -> (r: PKResult<crate::config::SimulationConfig>)
        requires
            old(self).current_line < old(self)@.len(),
        ensures
            final(self)@ == old(self)@,
            match sigma_fold(
                old(self)@,
                old(self).current_line + 1,
                default_error_model(),
                SigmaModelKind::Proportional,
            ) {
                Ok(t) => r matches Ok(sc) && sc.error_model == t.0 && sc.time_points@
                    == default_time_points() && sc.integration_method
                    is Analytical && sc.tolerance is None && final(self).current_line == t.1,
                Err(p) => r matches Err(PKError::Validation(f)) && f@ == p,
            },
    {
        let n = self.lines.len();
        self.current_line = self.current_line + 1;
        let ghost ls = self@;
        let mut em = crate::config::ErrorModel::Proportional {
            sigma: Decimal { nanos: 100_000_000 },
        };
        let mut kind = SigmaModelKind::Proportional;
        let kw_model_v = vec![77u8, 79u8, 68u8, 69u8, 76u8];
        let kw_add_v = vec![65u8, 68u8, 68u8, 73u8, 84u8, 73u8, 86u8, 69u8];
        let kw_comb_v = vec![67u8, 79u8, 77u8, 66u8, 73u8, 78u8, 69u8, 68u8];
        let kw_prop_v = vec![80u8, 82u8, 79u8, 80u8, 79u8, 82u8, 84u8, 73u8, 79u8, 78u8, 65u8, 76u8];
        proof {
            assert(kw_model_v@ =~= kw_model());
            assert(kw_add_v@ =~= kw_additive());
            assert(kw_comb_v@ =~= kw_combined());
            assert(kw_prop_v@ =~= kw_proportional());
        }
        while self.current_line < n && !(self.lines[self.current_line].len() > 0
            && self.lines[self.current_line][0] == 36)
            invariant
                self.current_line <= n == ls.len(),
                self@ == ls,
                ls == old(self)@,
                self.lines == old(self).lines,
                kw_model_v@ == kw_model(),
                kw_add_v@ == kw_additive(),
                kw_comb_v@ == kw_combined(),
                kw_prop_v@ == kw_proportional(),
                sigma_fold(ls, old(self).current_line + 1, default_error_model(),
                    SigmaModelKind::Proportional) == sigma_fold(
                    ls,
                    self.current_line as int,
                    em,
                    kind,
                ),
            decreases n - self.current_line,
        {
            proof {
                assert(ls[self.current_line as int] =~= self.lines@[self.current_line as int]@);
            }
            let line = copy_bytes(self.lines[self.current_line].as_slice());
            let upper = to_upper(line.as_slice());
            if line_has(&upper, &kw_model_v) {
                if line_has(&upper, &kw_add_v) {
                    kind = SigmaModelKind::Additive;
                } else if line_has(&upper, &kw_comb_v) {
                    kind = SigmaModelKind::Combined;
                } else if line_has(&upper, &kw_prop_v) {
                    kind = SigmaModelKind::Proportional;
                }
            } else {
                let vs = match self.parse_sigma_line(line.as_slice()) {
                    Ok(vs) => vs,
                    Err(e) => {
                        return Err(e);
                    },
                };
                proof {
                    if vs@.len() > 0 {
                        assert(decs_view(vs@)[0] == vs@[0]@);
                    }
                    if vs@.len() > 1 {
                        assert(decs_view(vs@)[1] == vs@[1]@);
                    }
                }
                if vs.len() == 0 {
                    return Err(PKError::Validation(line));
                }
                let s0 = match vs[0].sd_from_variance() {
                    Some(s) => s,
                    None => {
                        return Err(PKError::Validation(line));
                    },
                };
                em = match kind {
                    SigmaModelKind::Proportional => crate::config::ErrorModel::Proportional {
                        sigma: s0,
                    },
                    SigmaModelKind::Additive => crate::config::ErrorModel::Additive {
                        sigma: s0,
                    },
                    SigmaModelKind::Combined => {
                        if vs.len() > 1 {
                            let s1 = match vs[1].sd_from_variance() {
                                Some(s) => s,
                                None => {
                                    return Err(PKError::Validation(line));
                                },
                            };
                            crate::config::ErrorModel::Combined {
                                sigma_prop: s0,
                                sigma_add: s1,
                            }
                        } else {
                            crate::config::ErrorModel::Combined {
                                sigma_prop: s0,
                                sigma_add: Decimal { nanos: 100_000_000 },
                            }
                        }
                    },
                };
            }
            self.current_line = self.current_line + 1;
        }
        proof {
            if self.current_line < n {
                assert(ls[self.current_line as int] =~= self.lines@[self.current_line as int]@);
            }
        }
        Ok(
            crate::config::SimulationConfig {
                time_points: default_time_points_vec(),
                error_model: em,
                integration_method: crate::config::IntegrationMethod::Analytical,
                tolerance: None,
            },
        )
    }
}

} // verus!

verus! {

/// The running state of a `$DOSING` block: route, amount, times,
/// duration, bioavailability, lag time.
pub open spec fn dosing_step(
    st: (crate::config::DosingRoute, Decimal, Seq<Decimal>, Option<Decimal>, Option<Decimal>, Option<Decimal>),
    l: Seq<u8>,
) -> Result<
    (crate::config::DosingRoute, Decimal, Seq<Decimal>, Option<Decimal>, Option<Decimal>, Option<Decimal>),
    Seq<u8>,
> {
    let u = upper_seq(l);
    if contains_seq(u, kw_route()) {
        let route = if contains_seq(u, kw_oral()) {
            crate::config::DosingRoute::Oral
        } else if contains_seq(u, kw_ivbolus()) {
            crate::config::DosingRoute::IvBolus
        } else if contains_seq(u, kw_infusion()) {
            crate::config::DosingRoute::IvInfusion
        } else {
            st.0
        };
        Ok((route, st.1, st.2, st.3, st.4, st.5))
    } else if contains_seq(u, kw_amount()) {
        match spec_extract_numeric(l) {
            Ok(v) => Ok((st.0, Decimal { nanos: v as i128 }, st.2, st.3, st.4, st.5)),
            Err(p) => Err(p),
        }
    } else if contains_seq(u, kw_times()) {
        match spec_extract_times(l) {
            Ok(vs) => Ok((st.0, st.1, decs_of(vs), st.3, st.4, st.5)),
            Err(p) => Err(p),
        }
    } else if contains_seq(u, kw_duration()) {
        match spec_extract_numeric(l) {
            Ok(v) => Ok((st.0, st.1, st.2, Some(Decimal { nanos: v as i128 }), st.4, st.5)),
            Err(p) => Err(p),
        }
    } else if contains_seq(u, kw_bioavailability()) {
        match spec_extract_numeric(l) {
            Ok(v) => Ok((st.0, st.1, st.2, st.3, Some(Decimal { nanos: v as i128 }), st.5)),
            Err(p) => Err(p),
        }
    } else if contains_seq(u, kw_lag_time()) {
        match spec_extract_numeric(l) {
            Ok(v) => Ok((st.0, st.1, st.2, st.3, st.4, Some(Decimal { nanos: v as i128 }))),
            Err(p) => Err(p),
        }
    } else {
        Ok(st)
    }
}

/// The `$DOSING` block over its lines.
pub open spec fn dosing_fold(
    ls: Seq<Seq<u8>>,
    i: int,
    st: (crate::config::DosingRoute, Decimal, Seq<Decimal>, Option<Decimal>, Option<Decimal>, Option<Decimal>),
) -> Result<
    ((crate::config::DosingRoute, Decimal, Seq<Decimal>, Option<Decimal>, Option<Decimal>, Option<Decimal>), int),
    Seq<u8>,
>
    recommends
        0 <= i <= ls.len(),
    decreases ls.len() - i when 0 <= i <= ls.len()
{
    if i < ls.len() && !dollar_line(ls[i]) {
        match dosing_step(st, ls[i]) {
            Err(p) => Err(p),
            Ok(st2) => dosing_fold(ls, i + 1, st2),
        }
    } else {
        Ok((st, i))
    }
}

/// The dosing defaults: an IV bolus of 100 at time zero.
pub open spec fn default_dosing_state() -> (
    crate::config::DosingRoute,
    Decimal,
    Seq<Decimal>,
    Option<Decimal>,
    Option<Decimal>,
    Option<Decimal>,
) {
    (
        crate::config::DosingRoute::IvBolus,
        Decimal { nanos: 100_000_000_000 },
        seq![Decimal { nanos: 0 }],
        None,
        None,
        None,
    )
}

impl ControlStreamParser {
    /// Read the `$DOSING` block.
    pub fn parse_dosing_block(&mut self) -> (r: PKResult<crate::config::DosingConfig>)
        requires
            old(self).current_line < old(self)@.len(),
        ensures
            final(self)@ == old(self)@,
            match dosing_fold(old(self)@, old(self).current_line + 1, default_dosing_state()) {
                Ok(t) => r matches Ok(dc) && {
                    let st = t.0;
                    &&& dc.route == st.0
                    &&& dc.amount == st.1
                    &&& dc.times@ == st.2
                    &&& dc.additional == (if st.3 is Some || st.4 is Some || st.5 is Some {
                        Some(
                            crate::config::AdditionalDosingParams {
                                duration: st.3,
                                lag_time: st.5,
                                bioavailability: st.4,
                            },
                        )
                    } else {
                        None
                    })
                    &&& final(self).current_line == t.1
                },
                Err(p) => r matches Err(PKError::Validation(f)) && f@ == p,
            },
    {
        let n = self.lines.len();
        self.current_line = self.current_line + 1;
        let ghost ls = self@;
        let mut route = crate::config::DosingRoute::IvBolus;
        let mut amount = Decimal { nanos: 100_000_000_000 };
        let mut times: Vec<Decimal> = vec![Decimal { nanos: 0 }];
        let mut duration: Option<Decimal> = None;
        let mut bio: Option<Decimal> = None;
        let mut lag: Option<Decimal> = None;
        let kw_route_v = vec![82u8, 79u8, 85u8, 84u8, 69u8];
        let kw_oral_v = vec![79u8, 82u8, 65u8, 76u8];
        let kw_ivbolus_v = vec![73u8, 86u8, 66u8, 79u8, 76u8, 85u8, 83u8];
        let kw_infusion_v = vec![73u8, 78u8, 70u8, 85u8, 83u8, 73u8, 79u8, 78u8];
        let kw_amount_v = vec![65u8, 77u8, 79u8, 85u8, 78u8, 84u8];
        let kw_times_v = vec![84u8, 73u8, 77u8, 69u8, 83u8];
        let kw_duration_v = vec![68u8, 85u8, 82u8, 65u8, 84u8, 73u8, 79u8, 78u8];
        let kw_bio_v = vec![66u8, 73u8, 79u8, 65u8, 86u8, 65u8, 73u8, 76u8, 65u8, 66u8, 73u8, 76u8, 73u8, 84u8, 89u8];
        let kw_lag_v = vec![76u8, 65u8, 71u8, 95u8, 84u8, 73u8, 77u8, 69u8];
        proof {
            assert(kw_route_v@ =~= kw_route());
            assert(kw_oral_v@ =~= kw_oral());
            assert(kw_ivbolus_v@ =~= kw_ivbolus());
            assert(kw_infusion_v@ =~= kw_infusion());
            assert(kw_amount_v@ =~= kw_amount());
            assert(kw_times_v@ =~= kw_times());
            assert(kw_duration_v@ =~= kw_duration());
            assert(kw_bio_v@ =~= kw_bioavailability());
            assert(kw_lag_v@ =~= kw_lag_time());
            assert(times@ =~= default_dosing_state().2);
        }
        while self.current_line < n && !(self.lines[self.current_line].len() > 0
            && self.lines[self.current_line][0] == 36)
            invariant
                self.current_line <= n == ls.len(),
                self@ == ls,
                ls == old(self)@,
                self.lines == old(self).lines,
                kw_route_v@ == kw_route(),
                kw_oral_v@ == kw_oral(),
                kw_ivbolus_v@ == kw_ivbolus(),
                kw_infusion_v@ == kw_infusion(),
                kw_amount_v@ == kw_amount(),
                kw_times_v@ == kw_times(),
                kw_duration_v@ == kw_duration(),
                kw_bio_v@ == kw_bioavailability(),
                kw_lag_v@ == kw_lag_time(),
                dosing_fold(ls, old(self).current_line + 1, default_dosing_state())
                    == dosing_fold(
                    ls,
                    self.current_line as int,
                    (route, amount, times@, duration, bio, lag),
                ),
            decreases n - self.current_line,
        {
            proof {
                assert(ls[self.current_line as int] =~= self.lines@[self.current_line as int]@);
            }
            let line = copy_bytes(self.lines[self.current_line].as_slice());
            let upper = to_upper(line.as_slice());
            if line_has(&upper, &kw_route_v) {
                if line_has(&upper, &kw_oral_v) {
                    route = crate::config::DosingRoute::Oral;
                } else if line_has(&upper, &kw_ivbolus_v) {
                    route = crate::config::DosingRoute::IvBolus;
                } else if line_has(&upper, &kw_infusion_v) {
                    route = crate::config::DosingRoute::IvInfusion;
                }
            } else if line_has(&upper, &kw_amount_v) {
                amount = match self.extract_numeric_value(line.as_slice()) {
                    Ok(v) => v,
                    Err(e) => {
                        return Err(e);
                    },
                };
            } else if line_has(&upper, &kw_times_v) {
                times = match self.extract_time_values(line.as_slice()) {
                    Ok(vs) => vs,
                    Err(e) => {
                        return Err(e);
                    },
                };
                proof {
                    let vs = spec_extract_times(ls[self.current_line as int])->Ok_0;
                    assert(times@ =~= decs_of(vs)) by {
                        assert(decs_view(times@) == vs);
                        assert forall|j: int| 0 <= j < times@.len() implies times@[j] == decs_of(
                            vs,
                        )[j] by {
                            assert(decs_view(times@)[j] == times@[j]@);
                        }
                    }
                }
            } else if line_has(&upper, &kw_duration_v) {
                duration = match self.extract_numeric_value(line.as_slice()) {
                    Ok(v) => Some(v),
                    Err(e) => {
                        return Err(e);
                    },
                };
            } else if line_has(&upper, &kw_bio_v) {
                bio = match self.extract_numeric_value(line.as_slice()) {
                    Ok(v) => Some(v),
                    Err(e) => {
                        return Err(e);
                    },
                };
            } else if line_has(&upper, &kw_lag_v) {
                lag = match self.extract_numeric_value(line.as_slice()) {
                    Ok(v) => Some(v),
                    Err(e) => {
                        return Err(e);
                    },
                };
            }
            self.current_line = self.current_line + 1;
        }
        proof {
            if self.current_line < n {
                assert(ls[self.current_line as int] =~= self.lines@[self.current_line as int]@);
            }
        }
        let additional: Option<crate::config::AdditionalDosingParams> = if duration.is_some()
            || bio.is_some() || lag.is_some() {
            Some(
                crate::config::AdditionalDosingParams {
                    duration,
                    lag_time: lag,
                    bioavailability: bio,
                },
            )
        } else {
            None
        };
        Ok(crate::config::DosingConfig { route, amount, times, additional })
    }
}

} // verus!

verus! {

/// The running state of a `$POPULATION` block: weight mean and sd, age
/// mean and sd, covariate mapping.
pub open spec fn population_step(
    st: (Decimal, Decimal, Decimal, Decimal, Seq<(Seq<u8>, CovariateConfig)>),
    l: Seq<u8>,
) -> Result<(Decimal, Decimal, Decimal, Decimal, Seq<(Seq<u8>, CovariateConfig)>), Seq<u8>> {
    let u = upper_seq(l);
    if contains_seq(u, kw_weight_mean()) {
        match spec_extract_numeric(l) {
            Ok(v) => Ok((Decimal { nanos: v as i128 }, st.1, st.2, st.3, st.4)),
            Err(p) => Err(p),
        }
    } else if contains_seq(u, kw_weight_sd()) {
        match spec_extract_numeric(l) {
            Ok(v) => Ok((st.0, Decimal { nanos: v as i128 }, st.2, st.3, st.4)),
            Err(p) => Err(p),
        }
    } else if contains_seq(u, kw_age_mean()) {
        match spec_extract_numeric(l) {
            Ok(v) => Ok((st.0, st.1, Decimal { nanos: v as i128 }, st.3, st.4)),
            Err(p) => Err(p),
        }
    } else if contains_seq(u, kw_age_sd()) {
        match spec_extract_numeric(l) {
            Ok(v) => Ok((st.0, st.1, st.2, Decimal { nanos: v as i128 }, st.4)),
            Err(p) => Err(p),
        }
    } else if contains_seq(u, kw_cov_prefix()) {
        match spec_covariate_line(l) {
            Ok(t) => Ok(
                (
                    st.0,
                    st.1,
                    st.2,
                    st.3,
                    crate::config::cm_insert(
                        st.4,
                        t.0,
                        CovariateConfig {
                            effect: Decimal { nanos: t.1 as i128 },
                            reference: Decimal { nanos: t.2 as i128 },
                            model: t.3,
                        },
                    ),
                ),
            ),
            Err(p) => Err(p),
        }
    } else {
        Ok(st)
    }
}

/// The `$POPULATION` block over its lines.
pub open spec fn population_fold(
    ls: Seq<Seq<u8>>,
    i: int,
    st: (Decimal, Decimal, Decimal, Decimal, Seq<(Seq<u8>, CovariateConfig)>),
) -> Result<((Decimal, Decimal, Decimal, Decimal, Seq<(Seq<u8>, CovariateConfig)>), int), Seq<u8>>
    recommends
        0 <= i <= ls.len(),
    decreases ls.len() - i when 0 <= i <= ls.len()
{
    if i < ls.len() && !dollar_line(ls[i]) {
        match population_step(st, ls[i]) {
            Err(p) => Err(p),
            Ok(st2) => population_fold(ls, i + 1, st2),
        }
    } else {
        Ok((st, i))
    }
}

/// The demographic defaults: weight 70 ± 15, age 45 ± 12.
pub open spec fn default_population_state() -> (
    Decimal,
    Decimal,
    Decimal,
    Decimal,
    Seq<(Seq<u8>, CovariateConfig)>,
) {
    (
        Decimal { nanos: 70_000_000_000 },
        Decimal { nanos: 15_000_000_000 },
        Decimal { nanos: 45_000_000_000 },
        Decimal { nanos: 12_000_000_000 },
        Seq::empty(),
    )
}

impl ControlStreamParser {
    /// Read the `$POPULATION` block.
    pub fn parse_population_block(&mut self) -> (r: PKResult<crate::config::PopulationConfig>)
        requires
            old(self).current_line < old(self)@.len(),
        ensures
            final(self)@ == old(self)@,
            match population_fold(
                old(self)@,
                old(self).current_line + 1,
                default_population_state(),
            ) {
                Ok(t) => r matches Ok(pc) && {
                    let st = t.0;
                    &&& pc.demographics.weight_mean == st.0
                    &&& pc.demographics.weight_sd == st.1
                    &&& pc.demographics.age_mean == st.2
                    &&& pc.demographics.age_sd == st.3
                    &&& (st.4.len() == 0 ==> pc.covariates is None)
                    &&& (st.4.len() > 0 ==> (pc.covariates matches Some(cm) && cm@ == st.4))
                    &&& final(self).current_line == t.1
                },
                Err(p) => r matches Err(PKError::Validation(f)) && f@ == p,
            },
    {
        let n = self.lines.len();
        self.current_line = self.current_line + 1;
        let ghost ls = self@;
        let mut wm = Decimal { nanos: 70_000_000_000 };
        let mut wsd = Decimal { nanos: 15_000_000_000 };
        let mut am = Decimal { nanos: 45_000_000_000 };
        let mut asd = Decimal { nanos: 12_000_000_000 };
        let mut covs = crate::config::CovariateMap::new();
        let kw_wm_v = vec![87u8, 69u8, 73u8, 71u8, 72u8, 84u8, 95u8, 77u8, 69u8, 65u8, 78u8];
        let kw_wsd_v = vec![87u8, 69u8, 73u8, 71u8, 72u8, 84u8, 95u8, 83u8, 68u8];
        let kw_am_v = vec![65u8, 71u8, 69u8, 95u8, 77u8, 69u8, 65u8, 78u8];
        let kw_asd_v = vec![65u8, 71u8, 69u8, 95u8, 83u8, 68u8];
        let kw_cov_v = vec![67u8, 79u8, 86u8, 95u8];
        proof {
            assert(kw_wm_v@ =~= kw_weight_mean());
            assert(kw_wsd_v@ =~= kw_weight_sd());
            assert(kw_am_v@ =~= kw_age_mean());
            assert(kw_asd_v@ =~= kw_age_sd());
            assert(kw_cov_v@ =~= kw_cov_prefix());
        }
        while self.current_line < n && !(self.lines[self.current_line].len() > 0
            && self.lines[self.current_line][0] == 36)
            invariant
                self.current_line <= n == ls.len(),
                self@ == ls,
                ls == old(self)@,
                self.lines == old(self).lines,
                kw_wm_v@ == kw_weight_mean(),
                kw_wsd_v@ == kw_weight_sd(),
                kw_am_v@ == kw_age_mean(),
                kw_asd_v@ == kw_age_sd(),
                kw_cov_v@ == kw_cov_prefix(),
                population_fold(ls, old(self).current_line + 1, default_population_state())
                    == population_fold(ls, self.current_line as int, (wm, wsd, am, asd, covs@)),
            decreases n - self.current_line,
        {
            proof {
                assert(ls[self.current_line as int] =~= self.lines@[self.current_line as int]@);
            }
            let line = copy_bytes(self.lines[self.current_line].as_slice());
            let upper = to_upper(line.as_slice());
            if line_has(&upper, &kw_wm_v) {
                wm = match self.extract_numeric_value(line.as_slice()) {
                    Ok(v) => v,
                    Err(e) => {
                        return Err(e);
                    },
                };
            } else if line_has(&upper, &kw_wsd_v) {
                wsd = match self.extract_numeric_value(line.as_slice()) {
                    Ok(v) => v,
                    Err(e) => {
                        return Err(e);
                    },
                };
            } else if line_has(&upper, &kw_am_v) {
                am = match self.extract_numeric_value(line.as_slice()) {
                    Ok(v) => v,
                    Err(e) => {
                        return Err(e);
                    },
                };
            } else if line_has(&upper, &kw_asd_v) {
                asd = match self.extract_numeric_value(line.as_slice()) {
                    Ok(v) => v,
                    Err(e) => {
                        return Err(e);
                    },
                };
            } else if line_has(&upper, &kw_cov_v) {
                let (param, cfg) = match self.parse_covariate_line(line.as_slice()) {
                    Ok(t) => t,
                    Err(e) => {
                        return Err(e);
                    },
                };
                covs.insert(param, cfg);
            }
            self.current_line = self.current_line + 1;
        }
        proof {
            if self.current_line < n {
                assert(ls[self.current_line as int] =~= self.lines@[self.current_line as int]@);
            }
        }
        let covariates: Option<crate::config::CovariateMap> = if covs.len() == 0 {
            None
        } else {
            Some(covs)
        };
        Ok(
            crate::config::PopulationConfig {
                demographics: crate::config::DemographicsConfig {
                    weight_mean: wm,
                    weight_sd: wsd,
                    age_mean: am,
                    age_sd: asd,
                },
                covariates,
            },
        )
    }

    /// Read the `$SIMULATION` block into an existing simulation block.
    pub fn parse_simulation_block(
        &mut self,
        sim_config: &mut crate::config::SimulationConfig,
    ) -> (r: PKResult<()>)
        requires
            old(self).current_line < old(self)@.len(),
        ensures
            final(self)@ == old(self)@,
            final(sim_config).error_model == old(sim_config).error_model,
            final(sim_config).tolerance == old(sim_config).tolerance,
            match simulation_fold(
                old(self)@,
                old(self).current_line + 1,
                (old(sim_config).time_points@, old(sim_config).integration_method),
            ) {
                Ok(t) => r is Ok && final(sim_config).time_points@ == t.0.0
                    && final(sim_config).integration_method == t.0.1
                    && final(self).current_line == t.1,
                Err(p) => r matches Err(PKError::Validation(f)) && f@ == p,
            },
    {
        let n = self.lines.len();
        self.current_line = self.current_line + 1;
        let ghost ls = self@;
        let kw_tp_v = vec![84u8, 73u8, 77u8, 69u8, 95u8, 80u8, 79u8, 73u8, 78u8, 84u8, 83u8];
        let kw_method_v = vec![77u8, 69u8, 84u8, 72u8, 79u8, 68u8];
        let kw_rk4_v = vec![82u8, 75u8, 52u8];
        let kw_euler_v = vec![69u8, 85u8, 76u8, 69u8, 82u8];
        proof {
            assert(kw_tp_v@ =~= kw_time_points());
            assert(kw_method_v@ =~= kw_method());
            assert(kw_rk4_v@ =~= kw_rk4());
            assert(kw_euler_v@ =~= kw_euler());
        }
        while self.current_line < n && !(self.lines[self.current_line].len() > 0
            && self.lines[self.current_line][0] == 36)
            invariant
                self.current_line <= n == ls.len(),
                self@ == ls,
                ls == old(self)@,
                self.lines == old(self).lines,
                kw_tp_v@ == kw_time_points(),
                kw_method_v@ == kw_method(),
                kw_rk4_v@ == kw_rk4(),
                kw_euler_v@ == kw_euler(),
                sim_config.error_model == old(sim_config).error_model,
                sim_config.tolerance == old(sim_config).tolerance,
                simulation_fold(
                    ls,
                    old(self).current_line + 1,
                    (old(sim_config).time_points@, old(sim_config).integration_method),
                ) == simulation_fold(
                    ls,
                    self.current_line as int,
                    (sim_config.time_points@, sim_config.integration_method),
                ),
            decreases n - self.current_line,
        {
            proof {
                assert(ls[self.current_line as int] =~= self.lines@[self.current_line as int]@);
            }
            let line = copy_bytes(self.lines[self.current_line].as_slice());
            let upper = to_upper(line.as_slice());
            if line_has(&upper, &kw_tp_v) {
                sim_config.time_points = match self.extract_time_values(line.as_slice()) {
                    Ok(vs) => vs,
                    Err(e) => {
                        return Err(e);
                    },
                };
                proof {
                    let vs = spec_extract_times(ls[self.current_line as int])->Ok_0;
                    assert(sim_config.time_points@ =~= decs_of(vs)) by {
                        assert(decs_view(sim_config.time_points@) == vs);
                        assert forall|j: int|
                            0 <= j < sim_config.time_points@.len() implies sim_config.time_points@[j]
                            == decs_of(vs)[j] by {
                            assert(decs_view(sim_config.time_points@)[j]
                                == sim_config.time_points@[j]@);
                        }
                    }
                }
            } else if line_has(&upper, &kw_method_v) {
                if line_has(&upper, &kw_rk4_v) {
                    sim_config.integration_method = crate::config::IntegrationMethod::Rk4;
                } else if line_has(&upper, &kw_euler_v) {
                    sim_config.integration_method = crate::config::IntegrationMethod::Euler;
                }
            }
            self.current_line = self.current_line + 1;
        }
        proof {
            if self.current_line < n {
                assert(ls[self.current_line as int] =~= self.lines@[self.current_line as int]@);
            }
        }
        Ok(())
    }
}

/// One `$SIMULATION` line: the grid or the integration method.
pub open spec fn simulation_step(
    st: (Seq<Decimal>, crate::config::IntegrationMethod),
    l: Seq<u8>,
) -> Result<(Seq<Decimal>, crate::config::IntegrationMethod), Seq<u8>> {
    let u = upper_seq(l);
    if contains_seq(u, kw_time_points()) {
        match spec_extract_times(l) {
            Ok(vs) => Ok((decs_of(vs), st.1)),
            Err(p) => Err(p),
        }
    } else if contains_seq(u, kw_method()) {
        if contains_seq(u, kw_rk4()) {
            Ok((st.0, crate::config::IntegrationMethod::Rk4))
        } else if contains_seq(u, kw_euler()) {
            Ok((st.0, crate::config::IntegrationMethod::Euler))
        } else {
            Ok(st)
        }
    } else {
        Ok(st)
    }
}

/// The `$SIMULATION` block over its lines.
pub open spec fn simulation_fold(
    ls: Seq<Seq<u8>>,
    i: int,
    st: (Seq<Decimal>, crate::config::IntegrationMethod),
) -> Result<((Seq<Decimal>, crate::config::IntegrationMethod), int), Seq<u8>>
    recommends
        0 <= i <= ls.len(),
    decreases ls.len() - i when 0 <= i <= ls.len()
{
    if i < ls.len() && !dollar_line(ls[i]) {
        match simulation_step(st, ls[i]) {
            Err(p) => Err(p),
            Ok(st2) => simulation_fold(ls, i + 1, st2),
        }
    } else {
        Ok((st, i))
    }
}

} // verus!

verus! {

pub open spec fn rec_problem() -> Seq<u8> {
    seq![36u8, 80u8, 82u8, 79u8, 66u8, 76u8, 69u8, 77u8]  // $PROBLEM
}

pub open spec fn rec_input() -> Seq<u8> {
    seq![36u8, 73u8, 78u8, 80u8, 85u8, 84u8]  // $INPUT
}

pub open spec fn rec_data() -> Seq<u8> {
    seq![36u8, 68u8, 65u8, 84u8, 65u8]  // $DATA
}

pub open spec fn rec_subroutine() -> Seq<u8> {
    seq![36u8, 83u8, 85u8, 66u8, 82u8, 79u8, 85u8, 84u8, 73u8, 78u8, 69u8]  // $SUBROUTINE
}

pub open spec fn rec_pk() -> Seq<u8> {
    seq![36u8, 80u8, 75u8]  // $PK
}

pub open spec fn rec_theta() -> Seq<u8> {
    seq![36u8, 84u8, 72u8, 69u8, 84u8, 65u8]  // $THETA
}

pub open spec fn rec_omega() -> Seq<u8> {
    seq![36u8, 79u8, 77u8, 69u8, 71u8, 65u8]  // $OMEGA
}

pub open spec fn rec_sigma() -> Seq<u8> {
    seq![36u8, 83u8, 73u8, 71u8, 77u8, 65u8]  // $SIGMA
}

pub open spec fn rec_dosing() -> Seq<u8> {
    seq![36u8, 68u8, 79u8, 83u8, 73u8, 78u8, 71u8]  // $DOSING
}

pub open spec fn rec_population() -> Seq<u8> {
    seq![36u8, 80u8, 79u8, 80u8, 85u8, 76u8, 65u8, 84u8, 73u8, 79u8, 78u8]  // $POPULATION
}

pub open spec fn rec_simulation() -> Seq<u8> {
    seq![36u8, 83u8, 73u8, 77u8, 85u8, 76u8, 65u8, 84u8, 73u8, 79u8, 78u8]  // $SIMULATION
}


pub open spec fn missing_subroutines_name() -> Seq<u8> {
    seq![36u8, 83u8, 85u8, 66u8, 82u8, 79u8, 85u8, 84u8, 73u8, 78u8, 69u8, 83u8]  // $SUBROUTINES
}

/// The dosing block's result shape.
pub open spec fn dose_result(
    st: (crate::config::DosingRoute, Decimal, Seq<Decimal>, Option<Decimal>, Option<Decimal>, Option<Decimal>),
) -> (crate::config::DosingRoute, Decimal, Seq<Decimal>, Option<crate::config::AdditionalDosingParams>) {
    (
        st.0,
        st.1,
        st.2,
        if st.3 is Some || st.4 is Some || st.5 is Some {
            Some(
                crate::config::AdditionalDosingParams {
                    duration: st.3,
                    lag_time: st.5,
                    bioavailability: st.4,
                },
            )
        } else {
            None
        },
    )
}

/// The population block's result shape.
pub open spec fn pop_result(
    st: (Decimal, Decimal, Decimal, Decimal, Seq<(Seq<u8>, CovariateConfig)>),
) -> (crate::config::DemographicsConfig, Option<Seq<(Seq<u8>, CovariateConfig)>>) {
    (
        crate::config::DemographicsConfig {
            weight_mean: st.0,
            weight_sd: st.1,
            age_mean: st.2,
            age_sd: st.3,
        },
        if st.4.len() == 0 {
            None
        } else {
            Some(st.4)
        },
    )
}

/// The whole control stream, block by block. Errors carry whether they
/// are model errors (`true`) or validation errors (`false`).
pub open spec fn parse_fold(
    ls: Seq<Seq<u8>>,
    i: int,
    m: Option<(u8, Seq<(Seq<u8>, crate::config::ParameterConfig)>)>,
    d: Option<(crate::config::DosingRoute, Decimal, Seq<Decimal>, Option<crate::config::AdditionalDosingParams>)>,
    p: Option<(crate::config::DemographicsConfig, Option<Seq<(Seq<u8>, CovariateConfig)>>)>,
    s: Option<(Seq<Decimal>, crate::config::ErrorModel, crate::config::IntegrationMethod, Option<Decimal>)>,
) -> Result<
    (
        Option<(u8, Seq<(Seq<u8>, crate::config::ParameterConfig)>)>,
        Option<(crate::config::DosingRoute, Decimal, Seq<Decimal>, Option<crate::config::AdditionalDosingParams>)>,
        Option<(crate::config::DemographicsConfig, Option<Seq<(Seq<u8>, CovariateConfig)>>)>,
        Option<(Seq<Decimal>, crate::config::ErrorModel, crate::config::IntegrationMethod, Option<Decimal>)>,
    ),
    (bool, Seq<u8>),
>
    recommends
        0 <= i <= ls.len(),
    decreases ls.len() - i when 0 <= i <= ls.len() via parse_fold_dec
{
    if i >= ls.len() {
        Ok((m, d, p, s))
    } else {
        let l = ls[i];
        if starts_with_seq(l, rec_problem()) || starts_with_seq(l, rec_input())
            || starts_with_seq(l, rec_data()) {
            parse_fold(ls, i + 1, m, d, p, s)
        } else if starts_with_seq(l, rec_subroutine()) {
            match spec_subroutines(l) {
                Err(pl) => Err((true, pl)),
                Ok(c) => parse_fold(
                    ls,
                    i + 1,
                    Some((c, Seq::empty())),
                    d,
                    p,
                    s,
                ),
            }
        } else if starts_with_seq(l, rec_pk()) {
            match m {
                None => Err((true, l)),
                Some(_) => parse_fold(ls, block_end(ls, i + 1), m, d, p, s),
            }
        } else if starts_with_seq(l, rec_theta()) {
            match m {
                None => Err((true, l)),
                Some(ms) => match theta_fold(ls, spec_theta_names(ms.0), ms.1, i + 1, 0) {
                    Err(pl) => Err((false, pl)),
                    Ok(t) => parse_fold(ls, t.1, Some((ms.0, t.0)), d, p, s),
                },
            }
        } else if starts_with_seq(l, rec_omega()) {
            match m {
                None => Err((true, l)),
                Some(ms) => match omega_fold(ls, spec_theta_names(ms.0), ms.1, i + 1, 0) {
                    Err(pl) => Err((false, pl)),
                    Ok(t) => parse_fold(ls, t.1, Some((ms.0, t.0)), d, p, s),
                },
            }
        } else if starts_with_seq(l, rec_sigma()) {
            match sigma_fold(ls, i + 1, default_error_model(), SigmaModelKind::Proportional) {
                Err(pl) => Err((false, pl)),
                Ok(t) => parse_fold(
                    ls,
                    t.1,
                    m,
                    d,
                    p,
                    Some(
                        (
                            default_time_points(),
                            t.0,
                            crate::config::IntegrationMethod::Analytical,
                            None,
                        ),
                    ),
                ),
            }
        } else if starts_with_seq(l, rec_dosing()) {
            match dosing_fold(ls, i + 1, default_dosing_state()) {
                Err(pl) => Err((false, pl)),
                Ok(t) => parse_fold(ls, t.1, m, Some(dose_result(t.0)), p, s),
            }
        } else if starts_with_seq(l, rec_population()) {
            match population_fold(ls, i + 1, default_population_state()) {
                Err(pl) => Err((false, pl)),
                Ok(t) => parse_fold(ls, t.1, m, d, Some(pop_result(t.0)), s),
            }
        } else if starts_with_seq(l, rec_simulation()) {
            let s0 = match s {
                Some(ss) => ss,
                None => (
                    Seq::<Decimal>::empty(),
                    default_error_model(),
                    crate::config::IntegrationMethod::Analytical,
                    None,
                ),
            };
            match simulation_fold(ls, i + 1, (s0.0, s0.2)) {
                Err(pl) => Err((false, pl)),
                Ok(t) => parse_fold(ls, t.1, m, d, p, Some((t.0.0, s0.1, t.0.1, s0.3))),
            }
        } else {
            parse_fold(ls, i + 1, m, d, p, s)
        }
    }
}

pub proof fn lemma_theta_fold_end(
    ls: Seq<Seq<u8>>,
    names: Seq<Seq<u8>>,
    m: Seq<(Seq<u8>, crate::config::ParameterConfig)>,
    i: int,
    pi: int,
)
    requires
        0 <= i <= ls.len(),
    ensures
        theta_fold(ls, names, m, i, pi) matches Ok(t) ==> i <= t.1 <= ls.len(),
    decreases ls.len() - i,
{
    if i < ls.len() && pi < names.len() && !dollar_line(ls[i]) {
        match spec_theta_line(ls[i]) {
            Err(_) => {},
            Ok(t) => {
                lemma_theta_fold_end(
                    ls,
                    names,
                    crate::config::pm_insert(m, names[pi], theta_cfg(t)),
                    i + 1,
                    pi + 1,
                );
            },
        }
    }
}

pub proof fn lemma_omega_fold_end(
    ls: Seq<Seq<u8>>,
    names: Seq<Seq<u8>>,
    m: Seq<(Seq<u8>, crate::config::ParameterConfig)>,
    i: int,
    pi: int,
)
    requires
        0 <= i <= ls.len(),
    ensures
        omega_fold(ls, names, m, i, pi) matches Ok(t) ==> i <= t.1 <= ls.len(),
    decreases ls.len() - i,
{
    if i < ls.len() && pi < names.len() && !dollar_line(ls[i]) {
        match spec_omega_line(ls[i]) {
            Err(_) => {},
            Ok(cv) => {
                lemma_omega_fold_end(
                    ls,
                    names,
                    crate::config::pm_set_omega(m, names[pi], Decimal { nanos: cv as i128 }),
                    i + 1,
                    pi + 1,
                );
            },
        }
    }
}

pub proof fn lemma_sigma_fold_end(
    ls: Seq<Seq<u8>>,
    i: int,
    em: crate::config::ErrorModel,
    k: SigmaModelKind,
)
    requires
        0 <= i <= ls.len(),
    ensures
        sigma_fold(ls, i, em, k) matches Ok(t) ==> i <= t.1 <= ls.len(),
    decreases ls.len() - i,
{
    if i < ls.len() && !dollar_line(ls[i]) {
        let u = upper_seq(ls[i]);
        if contains_seq(u, kw_model()) {
            lemma_sigma_fold_end(ls, i + 1, em, sigma_kind_step(k, u));
        } else {
            match spec_sigma_line(ls[i]) {
                Err(_) => {},
                Ok(vs) => match sigma_step(k, vs, ls[i]) {
                    Err(_) => {},
                    Ok(em2) => {
                        lemma_sigma_fold_end(ls, i + 1, em2, k);
                    },
                },
            }
        }
    }
}

pub proof fn lemma_dosing_fold_end(
    ls: Seq<Seq<u8>>,
    i: int,
    st: (crate::config::DosingRoute, Decimal, Seq<Decimal>, Option<Decimal>, Option<Decimal>, Option<Decimal>),
)
    requires
        0 <= i <= ls.len(),
    ensures
        dosing_fold(ls, i, st) matches Ok(t) ==> i <= t.1 <= ls.len(),
    decreases ls.len() - i,
{
    if i < ls.len() && !dollar_line(ls[i]) {
        match dosing_step(st, ls[i]) {
            Err(_) => {},
            Ok(st2) => {
                lemma_dosing_fold_end(ls, i + 1, st2);
            },
        }
    }
}

pub proof fn lemma_population_fold_end(
    ls: Seq<Seq<u8>>,
    i: int,
    st: (Decimal, Decimal, Decimal, Decimal, Seq<(Seq<u8>, CovariateConfig)>),
)
    requires
        0 <= i <= ls.len(),
    ensures
        population_fold(ls, i, st) matches Ok(t) ==> i <= t.1 <= ls.len(),
    decreases ls.len() - i,
{
    if i < ls.len() && !dollar_line(ls[i]) {
        match population_step(st, ls[i]) {
            Err(_) => {},
            Ok(st2) => {
                lemma_population_fold_end(ls, i + 1, st2);
            },
        }
    }
}

pub proof fn lemma_simulation_fold_end(
    ls: Seq<Seq<u8>>,
    i: int,
    st: (Seq<Decimal>, crate::config::IntegrationMethod),
)
    requires
        0 <= i <= ls.len(),
    ensures
        simulation_fold(ls, i, st) matches Ok(t) ==> i <= t.1 <= ls.len(),
    decreases ls.len() - i,
{
    if i < ls.len() && !dollar_line(ls[i]) {
        match simulation_step(st, ls[i]) {
            Err(_) => {},
            Ok(st2) => {
                lemma_simulation_fold_end(ls, i + 1, st2);
            },
        }
    }
}

#[via_fn]
proof fn parse_fold_dec(
    ls: Seq<Seq<u8>>,
    i: int,
    m: Option<(u8, Seq<(Seq<u8>, crate::config::ParameterConfig)>)>,
    d: Option<(crate::config::DosingRoute, Decimal, Seq<Decimal>, Option<crate::config::AdditionalDosingParams>)>,
    p: Option<(crate::config::DemographicsConfig, Option<Seq<(Seq<u8>, CovariateConfig)>>)>,
    s: Option<(Seq<Decimal>, crate::config::ErrorModel, crate::config::IntegrationMethod, Option<Decimal>)>,
) {
    if i < ls.len() {
        lemma_block_end_bounds(ls, i + 1);
        if m is Some {
            let ms = m->Some_0;
            lemma_theta_fold_end(ls, spec_theta_names(ms.0), ms.1, i + 1, 0);
            lemma_omega_fold_end(ls, spec_theta_names(ms.0), ms.1, i + 1, 0);
        }
        lemma_sigma_fold_end(ls, i + 1, default_error_model(), SigmaModelKind::Proportional);
        lemma_dosing_fold_end(ls, i + 1, default_dosing_state());
        lemma_population_fold_end(ls, i + 1, default_population_state());
        let s0 = match s {
            Some(ss) => ss,
            None => (
                Seq::<Decimal>::empty(),
                default_error_model(),
                crate::config::IntegrationMethod::Analytical,
                None,
            ),
        };
        lemma_simulation_fold_end(ls, i + 1, (s0.0, s0.2));
    }
}

} // verus!

verus! {

pub open spec fn mc_view(m: &Option<crate::config::ModelConfig>) -> Option<
    (u8, Seq<(Seq<u8>, crate::config::ParameterConfig)>),
> {
    match m {
        Some(mc) => Some((mc.compartments, mc.parameters@)),
        None => None,
    }
}

pub open spec fn dc_view(d: &Option<crate::config::DosingConfig>) -> Option<
    (crate::config::DosingRoute, Decimal, Seq<Decimal>, Option<crate::config::AdditionalDosingParams>),
> {
    match d {
        Some(dc) => Some((dc.route, dc.amount, dc.times@, dc.additional)),
        None => None,
    }
}

pub open spec fn pc_view(p: &Option<crate::config::PopulationConfig>) -> Option<
    (crate::config::DemographicsConfig, Option<Seq<(Seq<u8>, CovariateConfig)>>),
> {
    match p {
        Some(pc) => Some(
            (
                pc.demographics,
                match pc.covariates {
                    Some(cm) => Some(cm@),
                    None => None,
                },
            ),
        ),
        None => None,
    }
}

pub open spec fn sc_view(s: &Option<crate::config::SimulationConfig>) -> Option<
    (Seq<Decimal>, crate::config::ErrorModel, crate::config::IntegrationMethod, Option<Decimal>),
> {
    match s {
        Some(sc) => Some(
            (sc.time_points@, sc.error_model, sc.integration_method, sc.tolerance),
        ),
        None => None,
    }
}

impl ControlStreamParser {
    /// Parse the whole control stream into a configuration: records in
    /// any order, later records overriding earlier ones, `$SUBROUTINES`
    /// required before `$PK`, `$THETA` and `$OMEGA`, and defaults for
    /// every absent block.
    pub fn parse(&mut self) -> (r: PKResult<crate::config::Config>)
        requires
            old(self).current_line <= old(self)@.len(),
        ensures
            final(self)@ == old(self)@,
            ({
                let res = parse_fold(
                    old(self)@,
                    old(self).current_line as int,
                    None,
                    None,
                    None,
                    None,
                );
                match res {
                    Err(e) => (e.0 ==> (r matches Err(PKError::InvalidModel(f)) && f@ == e.1)) && (
                    !e.0 ==> (r matches Err(PKError::Validation(f)) && f@ == e.1)),
                    Ok(st) => match st.0 {
                        None => (r matches Err(PKError::InvalidModel(f)) && f@
                            == missing_subroutines_name()),
                        Some(ms) => r matches Ok(cfg) && {
                            &&& cfg.model.compartments == ms.0
                            &&& cfg.model.parameters@ == ms.1
                            &&& match st.1 {
                                Some(ds) => cfg.dosing.route == ds.0 && cfg.dosing.amount == ds.1
                                    && cfg.dosing.times@ == ds.2 && cfg.dosing.additional == ds.3,
                                None => cfg.dosing.route is IvBolus && cfg.dosing.amount@
                                    == 100_000_000_000 && cfg.dosing.times@ == seq![
                                    Decimal { nanos: 0 },
                                ] && cfg.dosing.additional is None,
                            }
                            &&& match st.2 {
                                Some(ps) => cfg.population.demographics == ps.0 && (match ps.1 {
                                    Some(cs) => (cfg.population.covariates matches Some(cm) && cm@
                                        == cs),
                                    None => cfg.population.covariates is None,
                                }),
                                None => cfg.population.demographics
                                    == (crate::config::DemographicsConfig {
                                    weight_mean: Decimal { nanos: 70_000_000_000 },
                                    weight_sd: Decimal { nanos: 15_000_000_000 },
                                    age_mean: Decimal { nanos: 45_000_000_000 },
                                    age_sd: Decimal { nanos: 12_000_000_000 },
                                }) && cfg.population.covariates is None,
                            }
                            &&& match st.3 {
                                Some(ss) => cfg.simulation.time_points@ == ss.0
                                    && cfg.simulation.error_model == ss.1
                                    && cfg.simulation.integration_method == ss.2
                                    && cfg.simulation.tolerance == ss.3,
                                None => cfg.simulation.time_points@ == default_time_points()
                                    && cfg.simulation.error_model == default_error_model()
                                    && cfg.simulation.integration_method
                                    is Analytical && cfg.simulation.tolerance is None,
                            }
                        },
                    },
                }
            }),
    {
        let ghost ls = self@;
        let ghost i0 = self.current_line as int;
        let mut model_config: Option<crate::config::ModelConfig> = None;
        let mut dosing_config: Option<crate::config::DosingConfig> = None;
        let mut population_config: Option<crate::config::PopulationConfig> = None;
        let mut simulation_config: Option<crate::config::SimulationConfig> = None;
        let rec_problem_v = vec![36u8, 80u8, 82u8, 79u8, 66u8, 76u8, 69u8, 77u8];
        let rec_input_v = vec![36u8, 73u8, 78u8, 80u8, 85u8, 84u8];
        let rec_data_v = vec![36u8, 68u8, 65u8, 84u8, 65u8];
        let rec_subroutine_v = vec![36u8, 83u8, 85u8, 66u8, 82u8, 79u8, 85u8, 84u8, 73u8, 78u8, 69u8];
        let rec_pk_v = vec![36u8, 80u8, 75u8];
        let rec_theta_v = vec![36u8, 84u8, 72u8, 69u8, 84u8, 65u8];
        let rec_omega_v = vec![36u8, 79u8, 77u8, 69u8, 71u8, 65u8];
        let rec_sigma_v = vec![36u8, 83u8, 73u8, 71u8, 77u8, 65u8];
        let rec_dosing_v = vec![36u8, 68u8, 79u8, 83u8, 73u8, 78u8, 71u8];
        let rec_population_v = vec![36u8, 80u8, 79u8, 80u8, 85u8, 76u8, 65u8, 84u8, 73u8, 79u8, 78u8];
        let rec_simulation_v = vec![36u8, 83u8, 73u8, 77u8, 85u8, 76u8, 65u8, 84u8, 73u8, 79u8, 78u8];
        proof {
            assert(rec_problem_v@ =~= rec_problem());
            assert(rec_input_v@ =~= rec_input());
            assert(rec_data_v@ =~= rec_data());
            assert(rec_subroutine_v@ =~= rec_subroutine());
            assert(rec_pk_v@ =~= rec_pk());
            assert(rec_theta_v@ =~= rec_theta());
            assert(rec_omega_v@ =~= rec_omega());
            assert(rec_sigma_v@ =~= rec_sigma());
            assert(rec_dosing_v@ =~= rec_dosing());
            assert(rec_population_v@ =~= rec_population());
            assert(rec_simulation_v@ =~= rec_simulation());
        }
        let n = self.lines.len();
        while self.current_line < n
            invariant
                self.current_line <= n == ls.len(),
                self@ == ls,
                ls == old(self)@,
                i0 == old(self).current_line,
                0 <= i0 <= ls.len(),
                rec_problem_v@ == rec_problem(),
                rec_input_v@ == rec_input(),
                rec_data_v@ == rec_data(),
                rec_subroutine_v@ == rec_subroutine(),
                rec_pk_v@ == rec_pk(),
                rec_theta_v@ == rec_theta(),
                rec_omega_v@ == rec_omega(),
                rec_sigma_v@ == rec_sigma(),
                rec_dosing_v@ == rec_dosing(),
                rec_population_v@ == rec_population(),
                rec_simulation_v@ == rec_simulation(),
                mc_view(&model_config) matches Some(ms) ==> crate::config::valid_compartments(
                    ms.0,
                ),
                parse_fold(ls, i0, None, None, None, None) == parse_fold(
                    ls,
                    self.current_line as int,
                    mc_view(&model_config),
                    dc_view(&dosing_config),
                    pc_view(&population_config),
                    sc_view(&simulation_config),
                ),
            decreases n - self.current_line,
        {
            proof {
                assert(ls[self.current_line as int] =~= self.lines@[self.current_line as int]@);
            }
            let ghost cur = self.current_line as int;
            let line = copy_bytes(self.lines[self.current_line].as_slice());
            if starts_with(line.as_slice(), rec_problem_v.as_slice()) || starts_with(
                line.as_slice(),
                rec_input_v.as_slice(),
            ) || starts_with(line.as_slice(), rec_data_v.as_slice()) {
                self.current_line = self.current_line + 1;
            } else if starts_with(line.as_slice(), rec_subroutine_v.as_slice()) {
                match self.parse_subroutines() {
                    Ok(mc) => {
                        model_config = Some(mc);
                    },
                    Err(e) => {
                        return Err(e);
                    },
                }
            } else if starts_with(line.as_slice(), rec_pk_v.as_slice()) {
                match &mut model_config {
                    Some(mc) => {
                        match self.parse_pk_block(mc) {
                            Ok(()) => {
                                proof {
                                    lemma_block_end_bounds(ls, cur + 1);
                                }
                            },
                            Err(e) => {
                                return Err(e);
                            },
                        }
                    },
                    None => {
                        return Err(PKError::InvalidModel(line));
                    },
                }
            } else if starts_with(line.as_slice(), rec_theta_v.as_slice()) {
                match &mut model_config {
                    Some(mc) => {
                        let ghost ms0 = (mc.compartments, mc.parameters@);
                        match self.parse_theta_block(mc) {
                            Ok(()) => {
                                proof {
                                    lemma_theta_fold_end(
                                        ls,
                                        spec_theta_names(ms0.0),
                                        ms0.1,
                                        cur + 1,
                                        0,
                                    );
                                }
                            },
                            Err(e) => {
                                return Err(e);
                            },
                        }
                    },
                    None => {
                        return Err(PKError::InvalidModel(line));
                    },
                }
            } else if starts_with(line.as_slice(), rec_omega_v.as_slice()) {
                match &mut model_config {
                    Some(mc) => {
                        let ghost ms0 = (mc.compartments, mc.parameters@);
                        match self.parse_omega_block(mc) {
                            Ok(()) => {
                                proof {
                                    lemma_omega_fold_end(
                                        ls,
                                        spec_theta_names(ms0.0),
                                        ms0.1,
                                        cur + 1,
                                        0,
                                    );
                                }
                            },
                            Err(e) => {
                                return Err(e);
                            },
                        }
                    },
                    None => {
                        return Err(PKError::InvalidModel(line));
                    },
                }
            } else if starts_with(line.as_slice(), rec_sigma_v.as_slice()) {
                match self.parse_sigma_block() {
                    Ok(sc) => {
                        simulation_config = Some(sc);
                        proof {
                            lemma_sigma_fold_end(
                                ls,
                                cur + 1,
                                default_error_model(),
                                SigmaModelKind::Proportional,
                            );
                        }
                    },
                    Err(e) => {
                        return Err(e);
                    },
                }
            } else if starts_with(line.as_slice(), rec_dosing_v.as_slice()) {
                match self.parse_dosing_block() {
                    Ok(dc) => {
                        dosing_config = Some(dc);
                        proof {
                            lemma_dosing_fold_end(ls, cur + 1, default_dosing_state());
                        }
                    },
                    Err(e) => {
                        return Err(e);
                    },
                }
            } else if starts_with(line.as_slice(), rec_population_v.as_slice()) {
                match self.parse_population_block() {
                    Ok(pc) => {
                        population_config = Some(pc);
                        proof {
                            lemma_population_fold_end(ls, cur + 1, default_population_state());
                        }
                    },
                    Err(e) => {
                        return Err(e);
                    },
                }
            } else if starts_with(line.as_slice(), rec_simulation_v.as_slice()) {
                let ghost s_pre = sc_view(&simulation_config);
                let mut sc = match simulation_config {
                    Some(s) => s,
                    None => crate::config::SimulationConfig {
                        time_points: Vec::new(),
                        error_model: crate::config::ErrorModel::Proportional {
                            sigma: Decimal { nanos: 100_000_000 },
                        },
                        integration_method: crate::config::IntegrationMethod::Analytical,
                        tolerance: None,
                    },
                };
                proof {
                    if s_pre is None {
                        assert(sc.time_points@ =~= Seq::<Decimal>::empty());
                    }
                }
                match self.parse_simulation_block(&mut sc) {
                    Ok(()) => {
                        proof {
                            let s0 = match s_pre {
                                Some(ss) => ss,
                                None => (
                                    Seq::<Decimal>::empty(),
                                    default_error_model(),
                                    crate::config::IntegrationMethod::Analytical,
                                    None,
                                ),
                            };
                            lemma_simulation_fold_end(ls, cur + 1, (s0.0, s0.2));
                        }
                        simulation_config = Some(sc);
                    },
                    Err(e) => {
                        return Err(e);
                    },
                }
            } else {
                self.current_line = self.current_line + 1;
            }
        }
        let mc = match model_config {
            Some(m) => m,
            None => {
                return Err(PKError::InvalidModel(vec![36u8, 83u8, 85u8, 66u8, 82u8, 79u8, 85u8, 84u8, 73u8, 78u8, 69u8, 83u8]));
            },
        };
        let dosing = match dosing_config {
            Some(d) => d,
            None => {
                let times: Vec<Decimal> = vec![Decimal { nanos: 0 }];
                proof {
                    assert(times@ =~= seq![Decimal { nanos: 0 }]);
                }
                crate::config::DosingConfig {
                    route: crate::config::DosingRoute::IvBolus,
                    amount: Decimal { nanos: 100_000_000_000 },
                    times,
                    additional: None,
                }
            },
        };
        let population = match population_config {
            Some(p) => p,
            None => crate::config::PopulationConfig {
                demographics: crate::config::DemographicsConfig {
                    weight_mean: Decimal { nanos: 70_000_000_000 },
                    weight_sd: Decimal { nanos: 15_000_000_000 },
                    age_mean: Decimal { nanos: 45_000_000_000 },
                    age_sd: Decimal { nanos: 12_000_000_000 },
                },
                covariates: None,
            },
        };
        let simulation = match simulation_config {
            Some(s) => s,
            None => crate::config::SimulationConfig {
                time_points: default_time_points_vec(),
                error_model: crate::config::ErrorModel::Proportional {
                    sigma: Decimal { nanos: 100_000_000 },
                },
                integration_method: crate::config::IntegrationMethod::Analytical,
                tolerance: None,
            },
        };
        Ok(crate::config::Config { model: mc, dosing, population, simulation })
    }
}

/// Parse a whole control stream, as text, into a configuration.
pub fn parse_control_stream(content: &[u8]) -> (r: PKResult<crate::config::Config>)
    ensures
        ({
            let res = parse_fold(clean_lines(content@), 0, None, None, None, None);
            match res {
                Err(e) => (e.0 ==> (r matches Err(PKError::InvalidModel(f)) && f@ == e.1)) && (!e.0
                    ==> (r matches Err(PKError::Validation(f)) && f@ == e.1)),
                Ok(st) => match st.0 {
                    None => (r matches Err(PKError::InvalidModel(f)) && f@
                        == missing_subroutines_name()),
                    Some(ms) => r matches Ok(cfg) && cfg.model.compartments == ms.0
                        && cfg.model.parameters@ == ms.1,
                },
            }
        }),
{
    let mut parser = ControlStreamParser::new(content);
    parser.parse()
}

} // verus!
