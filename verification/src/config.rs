//! The simulation configuration and its validation rules.
//!
//! Mirrors the JSON configuration shape: a model block (compartment
//! count and named parameters), a dosing block, a population block and
//! a simulation block. Parameter and covariate mappings keep insertion
//! order, which fixes the order of random draws downstream.

use vstd::prelude::*;

use crate::bytes::bytes_eq;
use crate::bytes::subrange_vec;
use crate::decimal::Decimal;
use crate::error::PKError;
use crate::error::PKResult;

verus! {

#[derive(Clone, Copy, Debug, PartialEq, Eq, Structural)]
pub enum DosingRoute {
    Oral,
    IvBolus,
    IvInfusion,
}

#[derive(Clone, Copy, Debug, PartialEq, Eq, Structural)]
pub enum IntegrationMethod {
    Analytical,
    Rk4,
    Euler,
}

#[derive(Clone, Copy, Debug, PartialEq, Eq, Structural)]
pub enum CovariateModel {
    Power,
    Exponential,
    Linear,
}

/// Residual error model, each σ a standard deviation.
#[derive(Clone, Copy, Debug, PartialEq, Eq, Structural)]
pub enum ErrorModel {
    Proportional { sigma: Decimal },
    Additive { sigma: Decimal },
    Combined { sigma_prop: Decimal, sigma_add: Decimal },
}

/// One model parameter: typical value, variability (CV%), bounds.
#[derive(Clone, Copy, Debug)]
pub struct ParameterConfig {
    pub theta: Decimal,
    pub omega: Option<Decimal>,
    pub bounds: Option<(Decimal, Decimal)>,
}

/// Name-to-parameter mapping that keeps insertion order.
#[derive(Debug)]
pub struct ParameterMap {
    pub entries: Vec<(Vec<u8>, ParameterConfig)>,
}

impl View for ParameterMap {
    type V = Seq<(Seq<u8>, ParameterConfig)>;

    open spec fn view(&self) -> Seq<(Seq<u8>, ParameterConfig)> {
        self.entries@.map(|i: int, e: (Vec<u8>, ParameterConfig)| (e.0@, e.1))
    }
}

/// First index whose key is `name`, or the length.
pub open spec fn pm_key_idx(es: Seq<(Seq<u8>, ParameterConfig)>, name: Seq<u8>) -> int
    decreases es.len(),
{
    if es.len() == 0 {
        0
    } else if es[0].0 == name {
        0
    } else {
        1 + pm_key_idx(es.skip(1), name)
    }
}

/// The parameter under `name`, by first match.
pub open spec fn pm_lookup(es: Seq<(Seq<u8>, ParameterConfig)>, name: Seq<u8>) -> Option<
    ParameterConfig,
> {
    let i = pm_key_idx(es, name);
    if i < es.len() {
        Some(es[i].1)
    } else {
        None
    }
}

/// Insert-or-replace, keeping the position of a replaced key.
pub open spec fn pm_insert(
    es: Seq<(Seq<u8>, ParameterConfig)>,
    name: Seq<u8>,
    c: ParameterConfig,
) -> Seq<(Seq<u8>, ParameterConfig)> {
    let i = pm_key_idx(es, name);
    if i < es.len() {
        es.update(i, (name, c))
    } else {
        es.push((name, c))
    }
}

/// Set the variability of `name`'s entry, if present.
pub open spec fn pm_set_omega(
    es: Seq<(Seq<u8>, ParameterConfig)>,
    name: Seq<u8>,
    om: Decimal,
) -> Seq<(Seq<u8>, ParameterConfig)> {
    let i = pm_key_idx(es, name);
    if i < es.len() {
        es.update(i, (es[i].0, ParameterConfig { omega: Some(om), ..es[i].1 }))
    } else {
        es
    }
}

proof fn lemma_pm_key_idx_from_scan(es: Seq<(Seq<u8>, ParameterConfig)>, name: Seq<u8>, i: int)
    requires
        0 <= i <= es.len(),
        forall|j: int| 0 <= j < i ==> (#[trigger] es[j]).0 != name,
        i == es.len() || es[i].0 == name,
    ensures
        pm_key_idx(es, name) == i,
    decreases es.len(),
{
    if es.len() > 0 && es[0].0 != name {
        assert(i > 0);
        assert forall|j: int| 0 <= j < i - 1 implies (#[trigger] es.skip(1)[j]).0 != name by {
            assert(es.skip(1)[j] == es[j + 1]);
        }
        if i < es.len() {
            assert(es.skip(1)[i - 1] == es[i]);
        }
        lemma_pm_key_idx_from_scan(es.skip(1), name, i - 1);
    }
}

impl ParameterMap {
    pub fn new() -> (r: ParameterMap)
        ensures
            r@ == Seq::<(Seq<u8>, ParameterConfig)>::empty(),
    {
        let r = ParameterMap { entries: Vec::new() };
        proof {
            assert(r@ =~= Seq::<(Seq<u8>, ParameterConfig)>::empty());
        }
        r
    }

    pub fn len(&self) -> (r: usize)
        ensures
            r == self@.len(),
    {
        self.entries.len()
    }

    /// The key at position `i`, in insertion order.
    pub fn key_at(&self, i: usize) -> (r: &Vec<u8>)
        requires
            i < self@.len(),
        ensures
            r@ == self@[i as int].0,
    {
        &self.entries[i].0
    }

    /// The parameter at position `i`, in insertion order.
    pub fn config_at(&self, i: usize) -> (r: &ParameterConfig)
        requires
            i < self@.len(),
        ensures
            *r == self@[i as int].1,
    {
        &self.entries[i].1
    }

    /// Position of `name`, or `None`.
    fn index_of(&self, name: &[u8]) -> (r: Option<usize>)
        ensures
            match r {
                Some(i) => i == pm_key_idx(self@, name@) && i < self@.len(),
                None => pm_key_idx(self@, name@) == self@.len(),
            },
    {
        let n = self.entries.len();
        let mut i: usize = 0;
        while i < n
            invariant
                i <= n == self@.len(),
                forall|j: int| 0 <= j < i ==> (#[trigger] self@[j]).0 != name@,
            decreases n - i,
        {
            if bytes_eq(self.entries[i].0.as_slice(), name) {
                proof {
                    lemma_pm_key_idx_from_scan(self@, name@, i as int);
                }
                return Some(i);
            }
            i = i + 1;
        }
        proof {
            lemma_pm_key_idx_from_scan(self@, name@, i as int);
        }
        None
    }

    pub fn get(&self, name: &[u8]) -> (r: Option<&ParameterConfig>)
        ensures
            match r {
                Some(c) => pm_lookup(self@, name@) == Some(*c),
                None => pm_lookup(self@, name@) is None,
            },
    {
        match self.index_of(name) {
            Some(i) => Some(&self.entries[i].1),
            None => None,
        }
    }

    /// Insert-or-replace, as a hash map's `insert` but order-keeping.
    pub fn insert(&mut self, name: Vec<u8>, c: ParameterConfig)
        ensures
            final(self)@ == pm_insert(old(self)@, name@, c),
    {
        match self.index_of(name.as_slice()) {
            Some(i) => {
                self.entries[i] = (name, c);
                proof {
                    assert(final(self)@ =~= pm_insert(old(self)@, name@, c));
                }
            },
            None => {
                self.entries.push((name, c));
                proof {
                    assert(final(self)@ =~= pm_insert(old(self)@, name@, c));
                }
            },
        }
    }

    /// Set the variability of an existing parameter; absent keys are left alone.
    pub fn set_omega(&mut self, name: &[u8], omega: Decimal) -> (found: bool)
        ensures
            final(self)@ == pm_set_omega(old(self)@, name@, omega),
            found == (pm_key_idx(old(self)@, name@) < old(self)@.len()),
    {
        match self.index_of(name) {
            Some(i) => {
                self.entries[i].1.omega = Some(omega);
                proof {
                    assert(final(self)@ =~= old(self)@.update(
                        pm_key_idx(old(self)@, name@),
                        (
                            old(self)@[pm_key_idx(old(self)@, name@)].0,
                            ParameterConfig {
                                omega: Some(omega),
                                ..old(self)@[pm_key_idx(old(self)@, name@)].1
                            },
                        ),
                    ));
                }
                true
            },
            None => {
                proof {
                    assert(final(self)@ =~= old(self)@);
                }
                false
            },
        }
    }
}

/// One covariate effect on a parameter.
#[derive(Clone, Copy, Debug)]
pub struct CovariateConfig {
    pub effect: Decimal,
    pub reference: Decimal,
    pub model: CovariateModel,
}

/// `"{PARAM}_{COV}"`-keyed covariate mapping, insertion-ordered.
#[derive(Debug)]
pub struct CovariateMap {
    pub entries: Vec<(Vec<u8>, CovariateConfig)>,
}

impl View for CovariateMap {
    type V = Seq<(Seq<u8>, CovariateConfig)>;

    open spec fn view(&self) -> Seq<(Seq<u8>, CovariateConfig)> {
        self.entries@.map(|i: int, e: (Vec<u8>, CovariateConfig)| (e.0@, e.1))
    }
}

/// First index whose key is `name`, or the length.
pub open spec fn cm_key_idx(es: Seq<(Seq<u8>, CovariateConfig)>, name: Seq<u8>) -> int
    decreases es.len(),
{
    if es.len() == 0 {
        0
    } else if es[0].0 == name {
        0
    } else {
        1 + cm_key_idx(es.skip(1), name)
    }
}

/// The covariate under `name`, by first match.
pub open spec fn cm_lookup(es: Seq<(Seq<u8>, CovariateConfig)>, name: Seq<u8>) -> Option<
    CovariateConfig,
> {
    let i = cm_key_idx(es, name);
    if i < es.len() {
        Some(es[i].1)
    } else {
        None
    }
}

/// Insert-or-replace, keeping the position of a replaced key.
pub open spec fn cm_insert(
    es: Seq<(Seq<u8>, CovariateConfig)>,
    name: Seq<u8>,
    c: CovariateConfig,
) -> Seq<(Seq<u8>, CovariateConfig)> {
    let i = cm_key_idx(es, name);
    if i < es.len() {
        es.update(i, (name, c))
    } else {
        es.push((name, c))
    }
}

proof fn lemma_cm_key_idx_from_scan(es: Seq<(Seq<u8>, CovariateConfig)>, name: Seq<u8>, i: int)
    requires
        0 <= i <= es.len(),
        forall|j: int| 0 <= j < i ==> (#[trigger] es[j]).0 != name,
        i == es.len() || es[i].0 == name,
    ensures
        cm_key_idx(es, name) == i,
    decreases es.len(),
{
    if es.len() > 0 && es[0].0 != name {
        assert(i > 0);
        assert forall|j: int| 0 <= j < i - 1 implies (#[trigger] es.skip(1)[j]).0 != name by {
            assert(es.skip(1)[j] == es[j + 1]);
        }
        if i < es.len() {
            assert(es.skip(1)[i - 1] == es[i]);
        }
        lemma_cm_key_idx_from_scan(es.skip(1), name, i - 1);
    }
}

impl CovariateMap {
    pub fn new() -> (r: CovariateMap)
        ensures
            r@ == Seq::<(Seq<u8>, CovariateConfig)>::empty(),
    {
        let r = CovariateMap { entries: Vec::new() };
        proof {
            assert(r@ =~= Seq::<(Seq<u8>, CovariateConfig)>::empty());
        }
        r
    }

    pub fn len(&self) -> (r: usize)
        ensures
            r == self@.len(),
    {
        self.entries.len()
    }

    fn index_of(&self, name: &[u8]) -> (r: Option<usize>)
        ensures
            match r {
                Some(i) => i == cm_key_idx(self@, name@) && i < self@.len(),
                None => cm_key_idx(self@, name@) == self@.len(),
            },
    {
        let n = self.entries.len();
        let mut i: usize = 0;
        while i < n
            invariant
                i <= n == self@.len(),
                forall|j: int| 0 <= j < i ==> (#[trigger] self@[j]).0 != name@,
            decreases n - i,
        {
            if bytes_eq(self.entries[i].0.as_slice(), name) {
                proof {
                    lemma_cm_key_idx_from_scan(self@, name@, i as int);
                }
                return Some(i);
            }
            i = i + 1;
        }
        proof {
            lemma_cm_key_idx_from_scan(self@, name@, i as int);
        }
        None
    }

    pub fn get(&self, name: &[u8]) -> (r: Option<&CovariateConfig>)
        ensures
            match r {
                Some(c) => cm_lookup(self@, name@) == Some(*c),
                None => cm_lookup(self@, name@) is None,
            },
    {
        match self.index_of(name) {
            Some(i) => Some(&self.entries[i].1),
            None => None,
        }
    }

    /// Insert-or-replace, as a hash map's `insert` but order-keeping.
    pub fn insert(&mut self, name: Vec<u8>, c: CovariateConfig)
        ensures
            final(self)@ == cm_insert(old(self)@, name@, c),
    {
        match self.index_of(name.as_slice()) {
            Some(i) => {
                self.entries[i] = (name, c);
                proof {
                    assert(final(self)@ =~= cm_insert(old(self)@, name@, c));
                }
            },
            None => {
                self.entries.push((name, c));
                proof {
                    assert(final(self)@ =~= cm_insert(old(self)@, name@, c));
                }
            },
        }
    }
}

/// The structural model block.
#[derive(Debug)]
pub struct ModelConfig {
    pub compartments: u8,
    pub parameters: ParameterMap,
}

/// Extra dosing settings.
#[derive(Clone, Copy, Debug)]
pub struct AdditionalDosingParams {
    pub duration: Option<Decimal>,
    pub lag_time: Option<Decimal>,
    pub bioavailability: Option<Decimal>,
}

/// The dosing block.
#[derive(Debug)]
pub struct DosingConfig {
    pub route: DosingRoute,
    pub amount: Decimal,
    pub times: Vec<Decimal>,
    pub additional: Option<AdditionalDosingParams>,
}

/// Demographic distribution parameters.
#[derive(Clone, Copy, Debug)]
pub struct DemographicsConfig {
    pub weight_mean: Decimal,
    pub weight_sd: Decimal,
    pub age_mean: Decimal,
    pub age_sd: Decimal,
}

/// The population block.
#[derive(Debug)]
pub struct PopulationConfig {
    pub demographics: DemographicsConfig,
    pub covariates: Option<CovariateMap>,
}

/// The simulation block.
#[derive(Debug)]
pub struct SimulationConfig {
    pub time_points: Vec<Decimal>,
    pub error_model: ErrorModel,
    pub integration_method: IntegrationMethod,
    pub tolerance: Option<Decimal>,
}

/// The whole configuration.
#[derive(Debug)]
pub struct Config {
    pub model: ModelConfig,
    pub dosing: DosingConfig,
    pub population: PopulationConfig,
    pub simulation: SimulationConfig,
}

/// A fresh copy of a byte string.
pub fn copy_bytes(s: &[u8]) -> (r: Vec<u8>)
    ensures
        r@ == s@,
{
    let r = subrange_vec(s, 0, s.len());
    proof {
        assert(s@.subrange(0, s@.len() as int) =~= s@);
    }
    r
}

} // verus!


verus! {

// Parameter and field names as byte strings (ASCII).
pub open spec fn name_cl() -> Seq<u8> {
    seq![67u8, 76u8]  // CL
}

pub open spec fn name_v() -> Seq<u8> {
    seq![86u8]  // V
}

pub open spec fn name_v1() -> Seq<u8> {
    seq![86u8, 49u8]  // V1
}

pub open spec fn name_ka() -> Seq<u8> {
    seq![75u8, 65u8]  // KA
}

pub open spec fn name_q() -> Seq<u8> {
    seq![81u8]  // Q
}

pub open spec fn name_q2() -> Seq<u8> {
    seq![81u8, 50u8]  // Q2
}

pub open spec fn name_v2() -> Seq<u8> {
    seq![86u8, 50u8]  // V2
}

pub open spec fn name_q3() -> Seq<u8> {
    seq![81u8, 51u8]  // Q3
}

pub open spec fn name_v3() -> Seq<u8> {
    seq![86u8, 51u8]  // V3
}

pub open spec fn field_compartments() -> Seq<u8> {
    seq![99u8, 111u8, 109u8, 112u8, 97u8, 114u8, 116u8, 109u8, 101u8, 110u8, 116u8, 115u8]  // compartments
}

pub open spec fn field_amount() -> Seq<u8> {
    seq![97u8, 109u8, 111u8, 117u8, 110u8, 116u8]  // amount
}

pub open spec fn field_times() -> Seq<u8> {
    seq![116u8, 105u8, 109u8, 101u8, 115u8]  // times
}

pub open spec fn field_duration() -> Seq<u8> {
    seq![100u8, 117u8, 114u8, 97u8, 116u8, 105u8, 111u8, 110u8]  // duration
}

pub open spec fn field_time_points() -> Seq<u8> {
    seq![116u8, 105u8, 109u8, 101u8, 95u8, 112u8, 111u8, 105u8, 110u8, 116u8, 115u8]  // time_points
}

/// A valid compartment count: one, two or three.
pub open spec fn valid_compartments(c: u8) -> bool {
    c == 1 || c == 2 || c == 3
}

/// The parameters a model must define, `KA` added for oral dosing.
pub open spec fn spec_required_params(c: u8, oral: bool) -> Seq<Seq<u8>> {
    let base = if c == 1 {
        seq![name_cl(), name_v()]
    } else if c == 2 {
        seq![name_cl(), name_v1(), name_q(), name_v2()]
    } else {
        seq![name_cl(), name_v1(), name_q2(), name_v2(), name_q3(), name_v3()]
    };
    if oral {
        base.push(name_ka())
    } else {
        base
    }
}

/// The required parameters, as byte strings.
pub fn required_params(c: u8, oral: bool) -> (r: Vec<Vec<u8>>)
    requires
        valid_compartments(c),
    ensures
        r.deep_view() == spec_required_params(c, oral),
{
    let mut r: Vec<Vec<u8>> = Vec::new();
    if c == 1 {
        r.push(vec![67u8, 76u8]);
        r.push(vec![86u8]);
    } else if c == 2 {
        r.push(vec![67u8, 76u8]);
        r.push(vec![86u8, 49u8]);
        r.push(vec![81u8]);
        r.push(vec![86u8, 50u8]);
    } else {
        r.push(vec![67u8, 76u8]);
        r.push(vec![86u8, 49u8]);
        r.push(vec![81u8, 50u8]);
        r.push(vec![86u8, 50u8]);
        r.push(vec![81u8, 51u8]);
        r.push(vec![86u8, 51u8]);
    }
    if oral {
        r.push(vec![75u8, 65u8]);
    }
    proof {
        assert(r.deep_view() =~~= spec_required_params(c, oral));
    }
    r
}

/// Index of the first required parameter that is missing or has a
/// non-positive typical value, or the list's length.
pub open spec fn first_bad_param(
    es: Seq<(Seq<u8>, ParameterConfig)>,
    names: Seq<Seq<u8>>,
    i: int,
) -> int
    recommends
        0 <= i <= names.len(),
    decreases names.len() - i when 0 <= i <= names.len()
{
    if i < names.len() {
        match pm_lookup(es, names[i]) {
            Some(pc) => if pc.theta@ > 0 {
                first_bad_param(es, names, i + 1)
            } else {
                i
            },
            None => i,
        }
    } else {
        i
    }
}

/// Every required parameter is present with a positive typical value.
pub open spec fn params_ok(es: Seq<(Seq<u8>, ParameterConfig)>, names: Seq<Seq<u8>>) -> bool {
    forall|i: int|
        0 <= i < names.len() ==> match pm_lookup(es, #[trigger] names[i]) {
            Some(pc) => pc.theta@ > 0,
            None => false,
        }
}

proof fn lemma_first_bad_param_from_scan(
    es: Seq<(Seq<u8>, ParameterConfig)>,
    names: Seq<Seq<u8>>,
    a: int,
    i: int,
)
    requires
        0 <= a <= i <= names.len(),
        forall|j: int|
            a <= j < i ==> match pm_lookup(es, #[trigger] names[j]) {
                Some(pc) => pc.theta@ > 0,
                None => false,
            },
        i == names.len() || !match pm_lookup(es, names[i]) {
            Some(pc) => pc.theta@ > 0,
            None => false,
        },
    ensures
        first_bad_param(es, names, a) == i,
    decreases i - a,
{
    if a < i {
        lemma_first_bad_param_from_scan(es, names, a + 1, i);
    }
}

/// The infusion duration carried by the dosing block, zero if absent.
pub open spec fn spec_infusion_duration(d: &DosingConfig) -> int {
    match d.additional {
        Some(a) => match a.duration {
            Some(x) => x@,
            None => 0,
        },
        None => 0,
    }
}

/// All dosing rules: positive amount, at least one time, and a positive
/// duration for infusions.
pub open spec fn dosing_ok(d: &DosingConfig) -> bool {
    &&& d.amount@ > 0
    &&& d.times@.len() > 0
    &&& (d.route is IvInfusion ==> spec_infusion_duration(d) > 0)
}

/// All configuration rules at once.
pub open spec fn config_ok(c: &Config) -> bool {
    &&& valid_compartments(c.model.compartments)
    &&& params_ok(
        c.model.parameters@,
        spec_required_params(c.model.compartments, c.dosing.route is Oral),
    )
    &&& dosing_ok(&c.dosing)
    &&& c.simulation.time_points@.len() > 0
}

impl Config {
    /// Check every configuration rule, reporting the first violation:
    /// the compartment count, then each required parameter in order
    /// (missing, then non-positive), then the dosing rules, then the
    /// time grid.
    pub fn validate(&self) -> (r: PKResult<()>)
        ensures
            r is Ok <==> config_ok(self),
            ({
                let names = spec_required_params(
                    self.model.compartments,
                    self.dosing.route is Oral,
                );
                let bad = first_bad_param(self.model.parameters@, names, 0);
                &&& (!valid_compartments(self.model.compartments) ==> (r matches Err(
                    PKError::InvalidModel(f),
                ) && f@ == field_compartments()))
                &&& (valid_compartments(self.model.compartments) && bad < names.len() ==> match pm_lookup(
                    self.model.parameters@,
                    names[bad],
                ) {
                    None => (r matches Err(PKError::InvalidModel(f)) && f@ == names[bad]),
                    Some(_) => (r matches Err(PKError::Validation(f)) && f@ == names[bad]),
                })
                &&& (valid_compartments(self.model.compartments) && bad == names.len() ==> {
                    &&& (self.dosing.amount@ <= 0 ==> (r matches Err(PKError::InvalidDosing(f))
                        && f@ == field_amount()))
                    &&& (self.dosing.amount@ > 0 && self.dosing.times@.len() == 0 ==> (r matches Err(
                        PKError::InvalidDosing(f),
                    ) && f@ == field_times()))
                    &&& (self.dosing.amount@ > 0 && self.dosing.times@.len() > 0
                        && self.dosing.route is IvInfusion && spec_infusion_duration(&self.dosing)
                        <= 0 ==> (r matches Err(PKError::InvalidDosing(f)) && f@
                        == field_duration()))
                    &&& (dosing_ok(&self.dosing) && self.simulation.time_points@.len() == 0
                        ==> (r matches Err(PKError::Validation(f)) && f@ == field_time_points()))
                })
            }),
    {
        if !(self.model.compartments == 1 || self.model.compartments == 2
            || self.model.compartments == 3) {
            return Err(
                PKError::InvalidModel(
                    vec![99u8, 111u8, 109u8, 112u8, 97u8, 114u8, 116u8, 109u8, 101u8, 110u8, 116u8, 115u8],
                ),
            );
        }
        let oral = match self.dosing.route {
            DosingRoute::Oral => true,
            _ => false,
        };
        let names = required_params(self.model.compartments, oral);
        let n = names.len();
        let mut i: usize = 0;
        while i < n
            invariant
                valid_compartments(self.model.compartments),
                i <= n == names.deep_view().len(),
                names.deep_view() == spec_required_params(
                    self.model.compartments,
                    self.dosing.route is Oral,
                ),
                forall|j: int|
                    0 <= j < i ==> match pm_lookup(
                        self.model.parameters@,
                        #[trigger] names.deep_view()[j],
                    ) {
                        Some(pc) => pc.theta@ > 0,
                        None => false,
                    },
            decreases n - i,
        {
            proof {
                assert(names.deep_view()[i as int] =~= names@[i as int]@);
            }
            match self.model.parameters.get(names[i].as_slice()) {
                None => {
                    proof {
                        lemma_first_bad_param_from_scan(
                            self.model.parameters@,
                            names.deep_view(),
                            0,
                            i as int,
                        );
                    }
                    return Err(PKError::InvalidModel(copy_bytes(names[i].as_slice())));
                },
                Some(pc) => {
                    if !(pc.theta.nanos > 0) {
                        proof {
                            lemma_first_bad_param_from_scan(
                                self.model.parameters@,
                                names.deep_view(),
                                0,
                                i as int,
                            );
                        }
                        return Err(PKError::Validation(copy_bytes(names[i].as_slice())));
                    }
                },
            }
            i = i + 1;
        }
        proof {
            lemma_first_bad_param_from_scan(
                self.model.parameters@,
                names.deep_view(),
                0,
                n as int,
            );
        }

        if !(self.dosing.amount.nanos > 0) {
            return Err(PKError::InvalidDosing(vec![97u8, 109u8, 111u8, 117u8, 110u8, 116u8]));
        }
        if self.dosing.times.len() == 0 {
            return Err(PKError::InvalidDosing(vec![116u8, 105u8, 109u8, 101u8, 115u8]));
        }
        let infusion = match self.dosing.route {
            DosingRoute::IvInfusion => true,
            _ => false,
        };
        if infusion {
            let dur: Decimal = match &self.dosing.additional {
                Some(a) => match a.duration {
                    Some(x) => x,
                    None => Decimal::zero(),
                },
                None => Decimal::zero(),
            };
            if !(dur.nanos > 0) {
                return Err(
                    PKError::InvalidDosing(
                        vec![100u8, 117u8, 114u8, 97u8, 116u8, 105u8, 111u8, 110u8],
                    ),
                );
            }
        }
        if self.simulation.time_points.len() == 0 {
            return Err(
                PKError::Validation(
                    vec![116u8, 105u8, 109u8, 101u8, 95u8, 112u8, 111u8, 105u8, 110u8, 116u8, 115u8],
                ),
            );
        }
        Ok(())
    }
}

} // verus!
