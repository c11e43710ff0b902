//! Structural models and their parameter bags.
//!
//! The numeric parameter set is assembled here from named entries, with
//! the same name-to-slot rules and failure order as the configuration
//! surface: unknown names are rejected, and an individual's sampled
//! values must be positive.

use vstd::prelude::*;

use crate::bytes::bytes_eq;
use crate::config::copy_bytes;
use crate::config::field_compartments;
use crate::config::name_cl;
use crate::config::name_ka;
use crate::config::name_q;
use crate::config::name_q2;
use crate::config::name_q3;
use crate::config::name_v;
use crate::config::name_v1;
use crate::config::name_v2;
use crate::config::name_v3;
use crate::config::valid_compartments;
use crate::config::ModelConfig;
use crate::decimal::Decimal;
use crate::error::PKError;
use crate::error::PKResult;

verus! {

/// Route of one administration.
#[derive(Clone, Copy, Debug, PartialEq, Eq, Structural)]
pub enum DoseRoute {
    Oral,
    IvBolus,
    IvInfusion,
}

/// One administration: when, how much, how; `duration` for infusions.
#[derive(Clone, Copy, Debug)]
pub struct DoseEvent {
    pub time: Decimal,
    pub amount: Decimal,
    pub route: DoseRoute,
    pub duration: Option<Decimal>,
}

/// The fixed parameter bag of a structural model.
#[derive(Clone, Copy, Debug)]
pub struct ModelParameters {
    pub cl: Decimal,
    pub v1: Decimal,
    pub ka: Option<Decimal>,
    pub q2: Option<Decimal>,
    pub v2: Option<Decimal>,
    pub q3: Option<Decimal>,
    pub v3: Option<Decimal>,
}

impl ModelParameters {
    /// The default bag for a compartment count: CL 1, V1 10, and for
    /// peripheral compartments Q2 0.5, V2 5, Q3 0.2, V3 2.
    pub open spec fn spec_new(compartments: u8) -> ModelParameters {
        ModelParameters {
            cl: Decimal { nanos: 1_000_000_000 },
            v1: Decimal { nanos: 10_000_000_000 },
            ka: None,
            q2: if compartments >= 2 {
                Some(Decimal { nanos: 500_000_000 })
            } else {
                None
            },
            v2: if compartments >= 2 {
                Some(Decimal { nanos: 5_000_000_000 })
            } else {
                None
            },
            q3: if compartments >= 3 {
                Some(Decimal { nanos: 200_000_000 })
            } else {
                None
            },
            v3: if compartments >= 3 {
                Some(Decimal { nanos: 2_000_000_000 })
            } else {
                None
            },
        }
    }

    pub fn new(compartments: u8) -> (r: ModelParameters)
        ensures
            r == ModelParameters::spec_new(compartments),
    {
        ModelParameters {
            cl: Decimal { nanos: 1_000_000_000 },
            v1: Decimal { nanos: 10_000_000_000 },
            ka: None,
            q2: if compartments >= 2 {
                Some(Decimal { nanos: 500_000_000 })
            } else {
                None
            },
            v2: if compartments >= 2 {
                Some(Decimal { nanos: 5_000_000_000 })
            } else {
                None
            },
            q3: if compartments >= 3 {
                Some(Decimal { nanos: 200_000_000 })
            } else {
                None
            },
            v3: if compartments >= 3 {
                Some(Decimal { nanos: 2_000_000_000 })
            } else {
                None
            },
        }
    }
}

/// The recognised parameter names.
#[derive(Clone, Copy, Debug, PartialEq, Eq, Structural)]
pub enum ParamName {
    Cl,
    V,
    V1,
    Ka,
    Q,
    Q2,
    V2,
    Q3,
    V3,
    Unknown,
}

pub open spec fn classify_spec(name: Seq<u8>) -> ParamName {
    if name == name_cl() {
        ParamName::Cl
    } else if name == name_v() {
        ParamName::V
    } else if name == name_v1() {
        ParamName::V1
    } else if name == name_ka() {
        ParamName::Ka
    } else if name == name_q() {
        ParamName::Q
    } else if name == name_q2() {
        ParamName::Q2
    } else if name == name_v2() {
        ParamName::V2
    } else if name == name_q3() {
        ParamName::Q3
    } else if name == name_v3() {
        ParamName::V3
    } else {
        ParamName::Unknown
    }
}

/// Which parameter a name denotes.
pub fn classify(name: &[u8]) -> (r: ParamName)
    ensures
        r == classify_spec(name@),
{
    let cl = vec![67u8, 76u8];
    let v = vec![86u8];
    let v1 = vec![86u8, 49u8];
    let ka = vec![75u8, 65u8];
    let q = vec![81u8];
    let q2 = vec![81u8, 50u8];
    let v2 = vec![86u8, 50u8];
    let q3 = vec![81u8, 51u8];
    let v3 = vec![86u8, 51u8];
    proof {
        assert(cl@ =~= name_cl());
        assert(v@ =~= name_v());
        assert(v1@ =~= name_v1());
        assert(ka@ =~= name_ka());
        assert(q@ =~= name_q());
        assert(q2@ =~= name_q2());
        assert(v2@ =~= name_v2());
        assert(q3@ =~= name_q3());
        assert(v3@ =~= name_v3());
    }
    if bytes_eq(name, cl.as_slice()) {
        ParamName::Cl
    } else if bytes_eq(name, v.as_slice()) {
        ParamName::V
    } else if bytes_eq(name, v1.as_slice()) {
        ParamName::V1
    } else if bytes_eq(name, ka.as_slice()) {
        ParamName::Ka
    } else if bytes_eq(name, q.as_slice()) {
        ParamName::Q
    } else if bytes_eq(name, q2.as_slice()) {
        ParamName::Q2
    } else if bytes_eq(name, v2.as_slice()) {
        ParamName::V2
    } else if bytes_eq(name, q3.as_slice()) {
        ParamName::Q3
    } else if bytes_eq(name, v3.as_slice()) {
        ParamName::V3
    } else {
        ParamName::Unknown
    }
}

/// Assignment of a configuration entry to its slot; `None` for an
/// unknown name. Accepts the union of all models' names.
pub open spec fn assign_any(p: ModelParameters, name: Seq<u8>, v: Decimal) -> Option<
    ModelParameters,
> {
    match classify_spec(name) {
        ParamName::Cl => Some(ModelParameters { cl: v, ..p }),
        ParamName::V => Some(ModelParameters { v1: v, ..p }),
        ParamName::V1 => Some(ModelParameters { v1: v, ..p }),
        ParamName::Ka => Some(ModelParameters { ka: Some(v), ..p }),
        ParamName::Q => Some(ModelParameters { q2: Some(v), ..p }),
        ParamName::Q2 => Some(ModelParameters { q2: Some(v), ..p }),
        ParamName::V2 => Some(ModelParameters { v2: Some(v), ..p }),
        ParamName::Q3 => Some(ModelParameters { q3: Some(v), ..p }),
        ParamName::V3 => Some(ModelParameters { v3: Some(v), ..p }),
        ParamName::Unknown => None,
    }
}

/// Names a one-compartment model takes.
pub open spec fn assign_one(p: ModelParameters, name: Seq<u8>, v: Decimal) -> Option<
    ModelParameters,
> {
    match classify_spec(name) {
        ParamName::Cl => Some(ModelParameters { cl: v, ..p }),
        ParamName::V => Some(ModelParameters { v1: v, ..p }),
        ParamName::V1 => Some(ModelParameters { v1: v, ..p }),
        ParamName::Ka => Some(ModelParameters { ka: Some(v), ..p }),
        _ => None,
    }
}

/// Names a two-compartment model takes.
pub open spec fn assign_two(p: ModelParameters, name: Seq<u8>, v: Decimal) -> Option<
    ModelParameters,
> {
    match classify_spec(name) {
        ParamName::Cl => Some(ModelParameters { cl: v, ..p }),
        ParamName::V1 => Some(ModelParameters { v1: v, ..p }),
        ParamName::Q => Some(ModelParameters { q2: Some(v), ..p }),
        ParamName::Q2 => Some(ModelParameters { q2: Some(v), ..p }),
        ParamName::V2 => Some(ModelParameters { v2: Some(v), ..p }),
        ParamName::Ka => Some(ModelParameters { ka: Some(v), ..p }),
        _ => None,
    }
}

/// Names a three-compartment model takes.
pub open spec fn assign_three(p: ModelParameters, name: Seq<u8>, v: Decimal) -> Option<
    ModelParameters,
> {
    match classify_spec(name) {
        ParamName::Cl => Some(ModelParameters { cl: v, ..p }),
        ParamName::V1 => Some(ModelParameters { v1: v, ..p }),
        ParamName::Q2 => Some(ModelParameters { q2: Some(v), ..p }),
        ParamName::V2 => Some(ModelParameters { v2: Some(v), ..p }),
        ParamName::Q3 => Some(ModelParameters { q3: Some(v), ..p }),
        ParamName::V3 => Some(ModelParameters { v3: Some(v), ..p }),
        ParamName::Ka => Some(ModelParameters { ka: Some(v), ..p }),
        _ => None,
    }
}

/// The view of a sampled name-value list.
pub open spec fn pv_view(s: Seq<(Vec<u8>, Decimal)>) -> Seq<(Seq<u8>, Decimal)> {
    s.map(|i: int, e: (Vec<u8>, Decimal)| (e.0@, e.1))
}

/// Install sampled values one by one; an unknown name gives
/// `Err((true, name))`, a non-positive value `Err((false, name))`.
pub open spec fn set_fold(
    f: spec_fn(ModelParameters, Seq<u8>, Decimal) -> Option<ModelParameters>,
    p: ModelParameters,
    es: Seq<(Seq<u8>, Decimal)>,
    i: int,
) -> Result<ModelParameters, (bool, Seq<u8>)>
    recommends
        0 <= i <= es.len(),
    decreases es.len() - i when 0 <= i <= es.len()
{
    if i < es.len() {
        match f(p, es[i].0, es[i].1) {
            None => Err((true, es[i].0)),
            Some(p2) => if es[i].1@ <= 0 {
                Err((false, es[i].0))
            } else {
                set_fold(f, p2, es, i + 1)
            },
        }
    } else {
        Ok(p)
    }
}

/// Install configured typical values one by one; an unknown name gives
/// `Err(name)`. No positivity check here: that is `Config::validate`'s.
pub open spec fn config_fold(
    p: ModelParameters,
    es: Seq<(Seq<u8>, crate::config::ParameterConfig)>,
    i: int,
) -> Result<ModelParameters, Seq<u8>>
    recommends
        0 <= i <= es.len(),
    decreases es.len() - i when 0 <= i <= es.len()
{
    if i < es.len() {
        match assign_any(p, es[i].0, es[i].1.theta) {
            None => Err(es[i].0),
            Some(p2) => config_fold(p2, es, i + 1),
        }
    } else {
        Ok(p)
    }
}

impl ModelParameters {
    /// The typical-value bag of a model configuration, entries applied
    /// in insertion order over the defaults.
    pub fn from_config(config: &ModelConfig) -> (r: PKResult<ModelParameters>)
        ensures
            match r {
                Ok(p) => config_fold(
                    ModelParameters::spec_new(config.compartments),
                    config.parameters@,
                    0,
                ) == Ok::<ModelParameters, Seq<u8>>(p),
                Err(e) => {
                    &&& config_fold(
                        ModelParameters::spec_new(config.compartments),
                        config.parameters@,
                        0,
                    ) matches Err(name)
                    &&& (e matches PKError::InvalidModel(f) && f@ == config_fold(
                        ModelParameters::spec_new(config.compartments),
                        config.parameters@,
                        0,
                    )->Err_0)
                },
            },
    {
        let mut p = ModelParameters::new(config.compartments);
        let n = config.parameters.len();
        let mut i: usize = 0;
        while i < n
            invariant
                i <= n == config.parameters@.len(),
                config_fold(
                    ModelParameters::spec_new(config.compartments),
                    config.parameters@,
                    0,
                ) == config_fold(p, config.parameters@, i as int),
            decreases n - i,
        {
            let name = config.parameters.key_at(i);
            let theta = config.parameters.config_at(i).theta;
            proof {
                assert(config.parameters@[i as int].0 == name@);
                assert(config.parameters@[i as int].1.theta == theta);
            }
            match classify(name.as_slice()) {
                ParamName::Cl => {
                    p = ModelParameters { cl: theta, ..p };
                },
                ParamName::V | ParamName::V1 => {
                    p = ModelParameters { v1: theta, ..p };
                },
                ParamName::Ka => {
                    p = ModelParameters { ka: Some(theta), ..p };
                },
                ParamName::Q | ParamName::Q2 => {
                    p = ModelParameters { q2: Some(theta), ..p };
                },
                ParamName::V2 => {
                    p = ModelParameters { v2: Some(theta), ..p };
                },
                ParamName::Q3 => {
                    p = ModelParameters { q3: Some(theta), ..p };
                },
                ParamName::V3 => {
                    p = ModelParameters { v3: Some(theta), ..p };
                },
                ParamName::Unknown => {
                    return Err(PKError::InvalidModel(copy_bytes(name.as_slice())));
                },
            }
            i = i + 1;
        }
        Ok(p)
    }
}

} // verus!

verus! {

/// The slot rules of each compartment count.
pub open spec fn assign_for(compartments: u8) -> spec_fn(ModelParameters, Seq<u8>, Decimal) -> Option<ModelParameters> {
    if compartments == 1 {
        |p: ModelParameters, n: Seq<u8>, v: Decimal| assign_one(p, n, v)
    } else if compartments == 2 {
        |p: ModelParameters, n: Seq<u8>, v: Decimal| assign_two(p, n, v)
    } else {
        |p: ModelParameters, n: Seq<u8>, v: Decimal| assign_three(p, n, v)
    }
}

/// The names a model reports, by compartment count.
pub open spec fn spec_param_names(compartments: u8) -> Seq<Seq<u8>> {
    if compartments == 1 {
        seq![name_cl(), name_v()]
    } else if compartments == 2 {
        seq![name_cl(), name_v1(), name_q2(), name_v2()]
    } else {
        seq![name_cl(), name_v1(), name_q2(), name_v2(), name_q3(), name_v3()]
    }
}

/// Install a list of sampled values over `p0` under the slot rules of
/// `compartments`: unknown names are `InvalidModel`, non-positive
/// values `Validation`, both carrying the name.
fn apply_values(compartments: u8, p0: ModelParameters, params: &Vec<(Vec<u8>, Decimal)>) -> (r:
    PKResult<ModelParameters>)
    requires
        valid_compartments(compartments),
    ensures
        match set_fold(assign_for(compartments), p0, pv_view(params@), 0) {
            Ok(p) => r matches Ok(q) && q == p,
            Err(t) => {
                &&& (t.0 ==> (r matches Err(PKError::InvalidModel(f)) && f@ == t.1))
                &&& (!t.0 ==> (r matches Err(PKError::Validation(f)) && f@ == t.1))
            },
        },
{
    let mut p = p0;
    let n = params.len();
    let mut i: usize = 0;
    while i < n
        invariant
            valid_compartments(compartments),
            i <= n == params@.len(),
            set_fold(assign_for(compartments), p0, pv_view(params@), 0) == set_fold(
                assign_for(compartments),
                p,
                pv_view(params@),
                i as int,
            ),
        decreases n - i,
    {
        let name = &params[i].0;
        let value = params[i].1;
        proof {
            assert(pv_view(params@)[i as int] == (name@, value));
        }
        let slot = classify(name.as_slice());
        let known = match slot {
            ParamName::Cl => true,
            ParamName::V => compartments == 1,
            ParamName::V1 => true,
            ParamName::Ka => true,
            ParamName::Q => compartments == 2,
            ParamName::Q2 => compartments >= 2,
            ParamName::V2 => compartments >= 2,
            ParamName::Q3 => compartments == 3,
            ParamName::V3 => compartments == 3,
            ParamName::Unknown => false,
        };
        if !known {
            return Err(PKError::InvalidModel(copy_bytes(name.as_slice())));
        }
        if !(value.nanos > 0) {
            return Err(PKError::Validation(copy_bytes(name.as_slice())));
        }
        match slot {
            ParamName::Cl => {
                p = ModelParameters { cl: value, ..p };
            },
            ParamName::V | ParamName::V1 => {
                p = ModelParameters { v1: value, ..p };
            },
            ParamName::Ka => {
                p = ModelParameters { ka: Some(value), ..p };
            },
            ParamName::Q | ParamName::Q2 => {
                p = ModelParameters { q2: Some(value), ..p };
            },
            ParamName::V2 => {
                p = ModelParameters { v2: Some(value), ..p };
            },
            ParamName::Q3 => {
                p = ModelParameters { q3: Some(value), ..p };
            },
            ParamName::V3 => {
                p = ModelParameters { v3: Some(value), ..p };
            },
            ParamName::Unknown => {
                proof {
                    assert(false);
                }
            },
        }
        i = i + 1;
    }
    Ok(p)
}

/// Build the name list a model reports.
fn param_names_vec(compartments: u8) -> (r: Vec<Vec<u8>>)
    requires
        valid_compartments(compartments),
    ensures
        r.deep_view() == spec_param_names(compartments),
{
    let mut r: Vec<Vec<u8>> = Vec::new();
    if compartments == 1 {
        r.push(vec![67u8, 76u8]);
        r.push(vec![86u8]);
    } else if compartments == 2 {
        r.push(vec![67u8, 76u8]);
        r.push(vec![86u8, 49u8]);
        r.push(vec![81u8, 50u8]);
        r.push(vec![86u8, 50u8]);
    } else {
        r.push(vec![67u8, 76u8]);
        r.push(vec![86u8, 49u8]);
        r.push(vec![81u8, 50u8]);
        r.push(vec![86u8, 50u8]);
        r.push(vec![81u8, 51u8]);
        r.push(vec![86u8, 51u8]);
    }
    proof {
        assert(r.deep_view() =~~= spec_param_names(compartments));
    }
    r
}

/// The one-compartment model.
#[derive(Clone, Copy, Debug)]
pub struct OneCompartmentModel {
    pub params: ModelParameters,
}

impl OneCompartmentModel {
    pub fn new() -> (r: OneCompartmentModel)
        ensures
            r.params == ModelParameters::spec_new(1),
    {
        OneCompartmentModel { params: ModelParameters::new(1) }
    }

    pub fn get_parameter_names(&self) -> (r: Vec<Vec<u8>>)
        ensures
            r.deep_view() == spec_param_names(1),
    {
        param_names_vec(1)
    }

    /// Install sampled values; on any error the model is unchanged.
    pub fn set_parameters(&mut self, params: &Vec<(Vec<u8>, Decimal)>) -> (r: PKResult<()>)
        ensures
            match set_fold(assign_for(1), old(self).params, pv_view(params@), 0) {
                Ok(p) => r is Ok && final(self).params == p,
                Err(t) => {
                    &&& *final(self) == *old(self)
                    &&& (t.0 ==> (r matches Err(PKError::InvalidModel(f)) && f@ == t.1))
                    &&& (!t.0 ==> (r matches Err(PKError::Validation(f)) && f@ == t.1))
                },
            },
    {
        match apply_values(1, self.params, params) {
            Ok(p) => {
                self.params = p;
                Ok(())
            },
            Err(e) => Err(e),
        }
    }
}

/// The two-compartment model.
#[derive(Clone, Copy, Debug)]
pub struct TwoCompartmentModel {
    pub params: ModelParameters,
}

impl TwoCompartmentModel {
    pub fn new() -> (r: TwoCompartmentModel)
        ensures
            r.params == ModelParameters::spec_new(2),
    {
        TwoCompartmentModel { params: ModelParameters::new(2) }
    }

    pub fn get_parameter_names(&self) -> (r: Vec<Vec<u8>>)
        ensures
            r.deep_view() == spec_param_names(2),
    {
        param_names_vec(2)
    }

    /// Install sampled values; on any error the model is unchanged.
    pub fn set_parameters(&mut self, params: &Vec<(Vec<u8>, Decimal)>) -> (r: PKResult<()>)
        ensures
            match set_fold(assign_for(2), old(self).params, pv_view(params@), 0) {
                Ok(p) => r is Ok && final(self).params == p,
                Err(t) => {
                    &&& *final(self) == *old(self)
                    &&& (t.0 ==> (r matches Err(PKError::InvalidModel(f)) && f@ == t.1))
                    &&& (!t.0 ==> (r matches Err(PKError::Validation(f)) && f@ == t.1))
                },
            },
    {
        match apply_values(2, self.params, params) {
            Ok(p) => {
                self.params = p;
                Ok(())
            },
            Err(e) => Err(e),
        }
    }
}

/// The three-compartment model.
#[derive(Clone, Copy, Debug)]
pub struct ThreeCompartmentModel {
    pub params: ModelParameters,
}

impl ThreeCompartmentModel {
    pub fn new() -> (r: ThreeCompartmentModel)
        ensures
            r.params == ModelParameters::spec_new(3),
    {
        ThreeCompartmentModel { params: ModelParameters::new(3) }
    }

    pub fn get_parameter_names(&self) -> (r: Vec<Vec<u8>>)
        ensures
            r.deep_view() == spec_param_names(3),
    {
        param_names_vec(3)
    }

    /// Install sampled values; on any error the model is unchanged.
    pub fn set_parameters(&mut self, params: &Vec<(Vec<u8>, Decimal)>) -> (r: PKResult<()>)
        ensures
            match set_fold(assign_for(3), old(self).params, pv_view(params@), 0) {
                Ok(p) => r is Ok && final(self).params == p,
                Err(t) => {
                    &&& *final(self) == *old(self)
                    &&& (t.0 ==> (r matches Err(PKError::InvalidModel(f)) && f@ == t.1))
                    &&& (!t.0 ==> (r matches Err(PKError::Validation(f)) && f@ == t.1))
                },
            },
    {
        match apply_values(3, self.params, params) {
            Ok(p) => {
                self.params = p;
                Ok(())
            },
            Err(e) => Err(e),
        }
    }
}

/// The structural model family, dispatched by compartment count.
#[derive(Clone, Copy, Debug)]
pub enum StructuralModel {
    One(OneCompartmentModel),
    Two(TwoCompartmentModel),
    Three(ThreeCompartmentModel),
}

impl StructuralModel {
    pub open spec fn spec_compartments(&self) -> u8 {
        match self {
            StructuralModel::One(_) => 1,
            StructuralModel::Two(_) => 2,
            StructuralModel::Three(_) => 3,
        }
    }

    pub open spec fn spec_params(&self) -> ModelParameters {
        match self {
            StructuralModel::One(m) => m.params,
            StructuralModel::Two(m) => m.params,
            StructuralModel::Three(m) => m.params,
        }
    }

    pub fn get_parameter_names(&self) -> (r: Vec<Vec<u8>>)
        ensures
            r.deep_view() == spec_param_names(self.spec_compartments()),
    {
        match self {
            StructuralModel::One(m) => m.get_parameter_names(),
            StructuralModel::Two(m) => m.get_parameter_names(),
            StructuralModel::Three(m) => m.get_parameter_names(),
        }
    }

    /// Install sampled values; on any error the model is unchanged.
    pub fn set_parameters(&mut self, params: &Vec<(Vec<u8>, Decimal)>) -> (r: PKResult<()>)
        ensures
            final(self).spec_compartments() == old(self).spec_compartments(),
            match set_fold(
                assign_for(old(self).spec_compartments()),
                old(self).spec_params(),
                pv_view(params@),
                0,
            ) {
                Ok(p) => r is Ok && final(self).spec_params() == p,
                Err(t) => {
                    &&& *final(self) == *old(self)
                    &&& (t.0 ==> (r matches Err(PKError::InvalidModel(f)) && f@ == t.1))
                    &&& (!t.0 ==> (r matches Err(PKError::Validation(f)) && f@ == t.1))
                },
            },
    {
        match self {
            StructuralModel::One(m) => m.set_parameters(params),
            StructuralModel::Two(m) => m.set_parameters(params),
            StructuralModel::Three(m) => m.set_parameters(params),
        }
    }
}

/// The model for a compartment count, with default parameters.
pub fn create_model(compartments: u8) -> (r: PKResult<StructuralModel>)
    ensures
        valid_compartments(compartments) ==> (r matches Ok(m) && m.spec_compartments()
            == compartments && m.spec_params() == ModelParameters::spec_new(compartments)),
        !valid_compartments(compartments) ==> (r matches Err(PKError::InvalidModel(f)) && f@
            == field_compartments()),
{
    if compartments == 1 {
        Ok(StructuralModel::One(OneCompartmentModel::new()))
    } else if compartments == 2 {
        Ok(StructuralModel::Two(TwoCompartmentModel::new()))
    } else if compartments == 3 {
        Ok(StructuralModel::Three(ThreeCompartmentModel::new()))
    } else {
        Err(
            PKError::InvalidModel(
                vec![99u8, 111u8, 109u8, 112u8, 97u8, 114u8, 116u8, 109u8, 101u8, 110u8, 116u8, 115u8],
            ),
        )
    }
}

} // verus!
