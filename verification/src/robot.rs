//! Legs and joints of the robot, assembled from its configuration.
use vstd::prelude::*;
use crate::config::{zero_f32, F32Bits, JointConfig, LegConfig};
use crate::text::str_eq;

verus! {

/// One joint: its servo channel, current angle and limits (degrees).
#[derive(Debug)]
pub struct Joint {
    pub name: String,
    pub channel: u8,
    pub angle: F32Bits,
    pub calibration_deg: F32Bits,
    pub min_deg: F32Bits,
    pub max_deg: F32Bits,
}

/// A leg: its id and its coxa, femur and tibia joints, in that order.
#[derive(Debug)]
pub struct Leg {
    pub id: String,
    pub joints: [Joint; 3],
}

/// `j` is the joint built from `c`: same name, channel and limits, at angle 0.
pub open spec fn joint_from(j: Joint, c: JointConfig) -> bool {
    &&& j.name@ == c.name@
    &&& j.channel == c.channel
    &&& j.angle == zero_f32()
    &&& j.calibration_deg == c.calibration_deg
    &&& j.min_deg == c.min_deg
    &&& j.max_deg == c.max_deg
}

impl Joint {
    /// The joint described by `config`, at angle 0.
    pub fn from_config(config: &JointConfig) -> (j: Joint)
        ensures
            joint_from(j, *config),
            j.name@ == config.name@,
            j.channel == config.channel,
            j.angle.bits == 0,
            j.calibration_deg == config.calibration_deg,
            j.min_deg == config.min_deg,
            j.max_deg == config.max_deg,
    {
        Joint {
            name: config.name.clone(),
            channel: config.channel,
            angle: F32Bits { bits: 0 },
            calibration_deg: config.calibration_deg,
            min_deg: config.min_deg,
            max_deg: config.max_deg,
        }
    }
}

/// Index of the first joint at or after `i` named `name` (or the length).
pub open spec fn first_named(joints: Seq<JointConfig>, name: Seq<char>, i: int) -> int
    decreases joints.len() - i,
{
    if i >= joints.len() || joints[i].name@ == name {
        i
    } else {
        first_named(joints, name, i + 1)
    }
}

/// The first joint named `name`, if any.
pub open spec fn joint_named(joints: Seq<JointConfig>, name: Seq<char>) -> Option<JointConfig> {
    let k = first_named(joints, name, 0);
    if k < joints.len() {
        Some(joints[k])
    } else {
        None
    }
}

pub open spec fn coxa() -> Seq<char> {
    seq!['c', 'o', 'x', 'a']
}

pub open spec fn femur() -> Seq<char> {
    seq!['f', 'e', 'm', 'u', 'r']
}

pub open spec fn tibia() -> Seq<char> {
    seq!['t', 'i', 'b', 'i', 'a']
}

/// The error for a leg `id` without a joint named `role`.
pub open spec fn missing_joint_message(id: Seq<char>, role: Seq<char>) -> Seq<char> {
    "leg "@ + id + ": missing "@ + role + " joint"@
}

/// What `Leg::from_config` gives for a leg configuration: the first missing
/// joint among coxa, femur and tibia (in that order) is an error; otherwise the
/// leg holds the first joint of each name.
pub open spec fn leg_from(c: LegConfig, r: Result<Leg, String>) -> bool {
    let js = c.joints@;
    if joint_named(js, coxa()) is None {
        r matches Err(e) && e@ == missing_joint_message(c.id@, coxa())
    } else if joint_named(js, femur()) is None {
        r matches Err(e) && e@ == missing_joint_message(c.id@, femur())
    } else if joint_named(js, tibia()) is None {
        r matches Err(e) && e@ == missing_joint_message(c.id@, tibia())
    } else {
        r matches Ok(leg) && {
            &&& leg.id@ == c.id@
            &&& joint_from(leg.joints[0], joint_named(js, coxa())->0)
            &&& joint_from(leg.joints[1], joint_named(js, femur())->0)
            &&& joint_from(leg.joints[2], joint_named(js, tibia())->0)
        }
    }
}

/// Position of the first joint named `name`.
fn find_joint(joints: &Vec<JointConfig>, name: &str) -> (r: Option<usize>)
    ensures
        match r {
            Some(k) => k < joints@.len() && k == first_named(joints@, name@, 0),
            None => first_named(joints@, name@, 0) >= joints@.len(),
        },
{
    let mut i: usize = 0;
    while i < joints.len()
        invariant
            i <= joints@.len(),
            first_named(joints@, name@, 0) == first_named(joints@, name@, i as int),
        decreases joints@.len() - i,
    {
        if str_eq(joints[i].name.as_str(), name) {
            return Some(i);
        }
        i = i + 1;
    }
    None
}

/// `leg <id>: missing <role> joint`.
fn missing_joint(id: &String, role: &str) -> (e: String)
    ensures
        e@ == missing_joint_message(id@, role@),
{
    let mut e = String::from_str("leg ");
    e.append(id.as_str());
    e.append(": missing ");
    e.append(role);
    e.append(" joint");
    e
}

impl Leg {
    /// Builds a leg from its configuration, taking the first joint named
    /// `coxa`, `femur` and `tibia`; fails on the first of these that is missing.
    pub fn from_config(config: &LegConfig) -> (r: Result<Leg, String>)
        ensures
            leg_from(*config, r),
            (r is Ok) <==> (has_joint_named(config.joints@, "coxa"@) && has_joint_named(
                config.joints@,
                "femur"@,
            ) && has_joint_named(config.joints@, "tibia"@)),
            r matches Ok(leg) ==> {
                &&& leg.id@ == config.id@
                &&& copies_first_named(leg.joints[0], config.joints@, "coxa"@)
                &&& copies_first_named(leg.joints[1], config.joints@, "femur"@)
                &&& copies_first_named(leg.joints[2], config.joints@, "tibia"@)
            },
    {
        let r = Self::assemble(config);
        proof {
            leg_assembly(*config, r);
        }
        r
    }

    fn assemble(config: &LegConfig) -> (r: Result<Leg, String>)
        ensures
            leg_from(*config, r),
    {
        proof {
            reveal_strlit("coxa");
            reveal_strlit("femur");
            reveal_strlit("tibia");
            assert("coxa"@ =~= coxa());
            assert("femur"@ =~= femur());
            assert("tibia"@ =~= tibia());
        }
        let c = match find_joint(&config.joints, "coxa") {
            Some(k) => k,
            None => return Err(missing_joint(&config.id, "coxa")),
        };
        let f = match find_joint(&config.joints, "femur") {
            Some(k) => k,
            None => return Err(missing_joint(&config.id, "femur")),
        };
        let t = match find_joint(&config.joints, "tibia") {
            Some(k) => k,
            None => return Err(missing_joint(&config.id, "tibia")),
        };
        Ok(
            Leg {
                id: config.id.clone(),
                joints: [
                    Joint::from_config(&config.joints[c]),
                    Joint::from_config(&config.joints[f]),
                    Joint::from_config(&config.joints[t]),
                ],
            },
        )
    }
}

} // verus!

verus! {

/// Whether a leg configuration names all three joints.
pub open spec fn leg_complete(c: LegConfig) -> bool {
    &&& joint_named(c.joints@, coxa()) is Some
    &&& joint_named(c.joints@, femur()) is Some
    &&& joint_named(c.joints@, tibia()) is Some
}

/// Index of the first incomplete leg at or after `i` (or the length).
pub open spec fn first_incomplete(legs: Seq<LegConfig>, i: int) -> int
    decreases legs.len() - i,
{
    if i >= legs.len() || !leg_complete(legs[i]) {
        i
    } else {
        first_incomplete(legs, i + 1)
    }
}

/// Total number of joints over all leg configurations.
pub open spec fn joint_total(legs: Seq<LegConfig>) -> nat
    decreases legs.len(),
{
    if legs.len() == 0 {
        0
    } else {
        joint_total(legs.drop_last()) + legs.last().joints@.len()
    }
}

/// A leg is built exactly when its configuration names all three joints.
pub proof fn leg_built_iff_complete(c: LegConfig, r: Result<Leg, String>)
    requires
        leg_from(c, r),
    ensures
        (r is Ok) == leg_complete(c),
{
}

/// Whether a leg configuration has joints named coxa, femur and tibia.
pub open spec fn names_all_joints(c: LegConfig) -> bool {
    &&& has_joint_named(c.joints@, "coxa"@)
    &&& has_joint_named(c.joints@, "femur"@)
    &&& has_joint_named(c.joints@, "tibia"@)
}

proof fn lemma_names_all_joints(c: LegConfig)
    ensures
        names_all_joints(c) == leg_complete(c),
{
    reveal_strlit("coxa");
    reveal_strlit("femur");
    reveal_strlit("tibia");
    assert("coxa"@ =~= coxa());
    assert("femur"@ =~= femur());
    assert("tibia"@ =~= tibia());
    lemma_joint_named(c.joints@, coxa());
    lemma_joint_named(c.joints@, femur());
    lemma_joint_named(c.joints@, tibia());
}

proof fn lemma_first_incomplete(legs: Seq<LegConfig>, i: int)
    requires
        0 <= i <= legs.len(),
    ensures
        i <= first_incomplete(legs, i) <= legs.len(),
        forall|j: int| i <= j < first_incomplete(legs, i) ==> leg_complete(#[trigger] legs[j]),
        first_incomplete(legs, i) < legs.len() ==> !leg_complete(legs[first_incomplete(legs, i)]),
    decreases legs.len() - i,
{
    if i < legs.len() && leg_complete(legs[i]) {
        lemma_first_incomplete(legs, i + 1);
    }
}

proof fn lemma_all_complete(legs: Seq<LegConfig>, i: int)
    requires
        i == 0,
        first_incomplete(legs, 0) >= legs.len(),
    ensures
        forall|j: int| 0 <= j < legs.len() ==> names_all_joints(#[trigger] legs[j]),
{
    lemma_first_incomplete(legs, 0);
    assert forall|j: int| 0 <= j < legs.len() implies names_all_joints(#[trigger] legs[j]) by {
        lemma_names_all_joints(legs[j]);
    }
}

/// Builds every leg, in order; the error of the first incomplete leg if there is one.
pub fn legs_from_config(legs: &Vec<LegConfig>) -> (r: Result<Vec<Leg>, String>)
    ensures
        (r is Ok) <==> forall|i: int| 0 <= i < legs@.len() ==> names_all_joints(#[trigger] legs@[i]),
        r matches Err(e) ==> exists|k: int|
            0 <= k < legs@.len() && !names_all_joints(#[trigger] legs@[k]) && (forall|j: int|
                0 <= j < k ==> names_all_joints(#[trigger] legs@[j])) && leg_from(legs@[k], Err(e)),
        first_incomplete(legs@, 0) < legs@.len() ==> (r matches Err(e) && leg_from(
            legs@[first_incomplete(legs@, 0)],
            Err(e),
        )),
        first_incomplete(legs@, 0) >= legs@.len() ==> (r matches Ok(v) && v@.len() == legs@.len()
            && forall|i: int| 0 <= i < legs@.len() ==> leg_from(legs@[i], Ok(#[trigger] v@[i]))),
{
    let mut out: Vec<Leg> = Vec::new();
    let mut i: usize = 0;
    while i < legs.len()
        invariant
            i <= legs@.len(),
            first_incomplete(legs@, 0) == first_incomplete(legs@, i as int),
            out@.len() == i,
            forall|k: int| 0 <= k < i ==> leg_from(legs@[k], Ok(#[trigger] out@[k])),
        decreases legs@.len() - i,
    {
        let r = Leg::from_config(&legs[i]);
        proof {
            leg_built_iff_complete(legs@[i as int], r);
        }
        match r {
            Ok(leg) => {
                out.push(leg);
            },
            Err(e) => {
                proof {
                    lemma_first_incomplete(legs@, 0);
                    lemma_names_all_joints(legs@[i as int]);
                    assert forall|j: int| 0 <= j < i implies names_all_joints(#[trigger] legs@[j]) by {
                        lemma_names_all_joints(legs@[j]);
                    }
                }
                return Err(e);
            },
        }
        i = i + 1;
    }
    proof {
        lemma_all_complete(legs@, 0);
    }
    Ok(out)
}

/// The number of joints over all legs.
pub fn total_joints(legs: &Vec<LegConfig>) -> (n: usize)
    requires
        joint_total(legs@) <= usize::MAX,
    ensures
        n == joint_total(legs@),
{
    let mut n: usize = 0;
    let mut i: usize = 0;
    while i < legs.len()
        invariant
            i <= legs@.len(),
            n == joint_total(legs@.subrange(0, i as int)),
            joint_total(legs@) <= usize::MAX,
        decreases legs@.len() - i,
    {
        proof {
            assert(legs@.subrange(0, i + 1).drop_last() =~= legs@.subrange(0, i as int));
            lemma_joint_total_prefix(legs@, i + 1);
        }
        n = n + legs[i].joints.len();
        i = i + 1;
    }
    assert(legs@.subrange(0, i as int) =~= legs@);
    n
}

proof fn lemma_joint_total_prefix(legs: Seq<LegConfig>, k: int)
    requires
        0 <= k <= legs.len(),
    ensures
        joint_total(legs.subrange(0, k)) <= joint_total(legs),
    decreases legs.len() - k,
{
    if k < legs.len() {
        lemma_joint_total_prefix(legs, k + 1);
        assert(legs.subrange(0, k + 1).drop_last() =~= legs.subrange(0, k));
    } else {
        assert(legs.subrange(0, k) =~= legs);
    }
}

} // verus!

verus! {

/// `j` is a copy of the first joint in `joints` named `role`: the same name,
/// channel, calibration and limits, at angle 0.
pub open spec fn copies_first_named(j: Joint, joints: Seq<JointConfig>, role: Seq<char>) -> bool {
    exists|i: int|
        #![trigger joints[i]]
        0 <= i < joints.len() && joints[i].name@ == role && (forall|m: int|
            0 <= m < i ==> (#[trigger] joints[m]).name@ != role) && j.name@ == joints[i].name@
            && j.channel == joints[i].channel && j.calibration_deg == joints[i].calibration_deg
            && j.min_deg == joints[i].min_deg && j.max_deg == joints[i].max_deg && j.angle.bits
            == 0
}

/// Whether some joint in `joints` is named `role`.
pub open spec fn has_joint_named(joints: Seq<JointConfig>, role: Seq<char>) -> bool {
    exists|i: int| 0 <= i < joints.len() && (#[trigger] joints[i]).name@ == role
}

proof fn lemma_first_named(joints: Seq<JointConfig>, name: Seq<char>, i: int)
    requires
        0 <= i <= joints.len(),
    ensures
        i <= first_named(joints, name, i) <= joints.len(),
        forall|m: int| i <= m < first_named(joints, name, i) ==> (#[trigger] joints[m]).name@ != name,
        first_named(joints, name, i) < joints.len() ==> joints[first_named(joints, name, i)].name@
            == name,
    decreases joints.len() - i,
{
    if i < joints.len() && joints[i].name@ != name {
        lemma_first_named(joints, name, i + 1);
    }
}

proof fn lemma_joint_named(joints: Seq<JointConfig>, name: Seq<char>)
    ensures
        (joint_named(joints, name) is Some) == has_joint_named(joints, name),
        joint_named(joints, name) matches Some(jc) ==> forall|j: Joint|
            joint_from(j, jc) ==> copies_first_named(j, joints, name),
{
    lemma_first_named(joints, name, 0);
    let k = first_named(joints, name, 0);
    if has_joint_named(joints, name) {
        let w = choose|i: int| 0 <= i < joints.len() && (#[trigger] joints[i]).name@ == name;
        assert(k <= w);
    }
    if k < joints.len() {
        assert(has_joint_named(joints, name));
        assert forall|j: Joint| joint_from(j, joints[k]) implies copies_first_named(j, joints, name) by {
            assert(joints[k].name@ == name);
        }
    }
}

/// Assembling a leg: it is built exactly when joints named coxa, femur and
/// tibia are all configured; each of its three joints is then a copy of the
/// first configured joint of that name (every setting kept, angle 0); and
/// otherwise the error names the leg and the first missing role, in the order
/// coxa, femur, tibia.
pub proof fn leg_assembly(c: LegConfig, r: Result<Leg, String>)
    requires
        leg_from(c, r),
    ensures
        (r is Ok) <==> (has_joint_named(c.joints@, "coxa"@) && has_joint_named(c.joints@, "femur"@)
            && has_joint_named(c.joints@, "tibia"@)),
        r matches Ok(leg) ==> {
            &&& leg.id@ == c.id@
            &&& copies_first_named(leg.joints[0], c.joints@, "coxa"@)
            &&& copies_first_named(leg.joints[1], c.joints@, "femur"@)
            &&& copies_first_named(leg.joints[2], c.joints@, "tibia"@)
        },
        !has_joint_named(c.joints@, "coxa"@) ==> (r matches Err(e) && e@ == "leg "@ + c.id@
            + ": missing coxa joint"@),
        has_joint_named(c.joints@, "coxa"@) && !has_joint_named(c.joints@, "femur"@) ==> (r matches Err(
            e,
        ) && e@ == "leg "@ + c.id@ + ": missing femur joint"@),
        has_joint_named(c.joints@, "coxa"@) && has_joint_named(c.joints@, "femur"@)
            && !has_joint_named(c.joints@, "tibia"@) ==> (r matches Err(e) && e@ == "leg "@ + c.id@
            + ": missing tibia joint"@),
{
    reveal_strlit("coxa");
    reveal_strlit("femur");
    reveal_strlit("tibia");
    reveal_strlit("leg ");
    reveal_strlit(": missing ");
    reveal_strlit(" joint");
    reveal_strlit(": missing coxa joint");
    reveal_strlit(": missing femur joint");
    reveal_strlit(": missing tibia joint");
    assert("coxa"@ =~= coxa());
    assert("femur"@ =~= femur());
    assert("tibia"@ =~= tibia());
    let js = c.joints@;
    lemma_joint_named(js, coxa());
    lemma_joint_named(js, femur());
    lemma_joint_named(js, tibia());
    assert(": missing "@ + coxa() + " joint"@ =~= ": missing coxa joint"@);
    assert(": missing "@ + femur() + " joint"@ =~= ": missing femur joint"@);
    assert(": missing "@ + tibia() + " joint"@ =~= ": missing tibia joint"@);
    assert(missing_joint_message(c.id@, coxa()) =~= "leg "@ + c.id@ + ": missing coxa joint"@);
    assert(missing_joint_message(c.id@, femur()) =~= "leg "@ + c.id@ + ": missing femur joint"@);
    assert(missing_joint_message(c.id@, tibia()) =~= "leg "@ + c.id@ + ": missing tibia joint"@);
}

} // verus!

verus! {

/// The joint count adds up over legs: it is the sum of each leg's joint count.
pub proof fn joint_total_adds_up(a: Seq<LegConfig>, b: Seq<LegConfig>)
    ensures
        joint_total(a + b) == joint_total(a) + joint_total(b),
        joint_total(Seq::<LegConfig>::empty()) == 0,
        forall|l: LegConfig| joint_total(seq![l]) == l.joints@.len(),
    decreases b.len(),
{
    assert forall|l: LegConfig| joint_total(seq![l]) == l.joints@.len() by {
        assert(seq![l].drop_last() =~= Seq::<LegConfig>::empty());
        assert(seq![l].last() == l);
        assert(joint_total(Seq::<LegConfig>::empty()) == 0);
        assert(joint_total(seq![l]) == joint_total(seq![l].drop_last()) + seq![l].last().joints@.len());
    }
    if b.len() == 0 {
        assert(a + b =~= a);
    } else {
        joint_total_adds_up(a, b.drop_last());
        assert((a + b).drop_last() =~= a + b.drop_last());
        assert((a + b).last() == b.last());
    }
}

} // verus!
