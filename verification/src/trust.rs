//! Device trust: how it is decided whether the device may be used.
//!
//! Like the course of a request, vetting the device alternates between decisions, which are here, and work
//! on the homeserver.

use vstd::prelude::*;

verus! {

/// Why the device is refused.
#[derive(Clone, Copy, Debug, PartialEq, Eq, Structural)]
pub enum TrustRefusal {
    /// A piece of work failed.
    WorkFailed,
    /// The device is not trusted, and repair is not authorised.
    Incomplete,
    /// The repair did not make the device trusted.
    RepairFailed,
}

/// The next piece of work, or the verdict.
#[derive(Clone, Copy, Debug, PartialEq, Eq, Structural)]
pub enum TrustStep {
    /// The device may be used.
    Pass,
    /// The device may not be used.
    Refuse(TrustRefusal),
    /// Create a cross-signing identity, if the account has none.
    BootstrapIfNeeded,
    /// Find out whether the identity is complete and the device verified.
    Inspect,
    /// Sign the device with the identity.
    SignDevice,
    /// Create the cross-signing identity anew.
    Bootstrap,
}

/// What came of a piece of work.
#[derive(Clone, Copy, Debug, PartialEq, Eq, Structural)]
pub enum TrustOutcome {
    Done,
    Found { complete: bool, verified: bool },
    Failed,
}

/// What the vetting awaits.
#[derive(Clone, Copy, Debug, PartialEq, Eq, Structural)]
pub enum TrustStage {
    Bootstrapping,
    FirstLook,
    Repairing,
    SecondLook,
    Finished,
}

/// How the vetting begins: without enforcement the device passes.
pub open spec fn vetting_beginning(require_verified: bool) -> (TrustStage, TrustStep) {
    if require_verified {
        (TrustStage::Bootstrapping, TrustStep::BootstrapIfNeeded)
    } else {
        (TrustStage::Finished, TrustStep::Pass)
    }
}

/// True for a trusted device.
pub open spec fn is_trusted(complete: bool, verified: bool) -> bool {
    complete && verified
}

/// How the vetting goes on. A device that is not trusted is repaired only where that is allowed:
/// signed, if the identity is complete, else with a new identity. It is then looked at again.
pub open spec fn vetting_next(stage: TrustStage, outcome: TrustOutcome, allow_repair: bool) -> (
    TrustStage,
    TrustStep,
) {
    match (stage, outcome) {
        (TrustStage::Bootstrapping, TrustOutcome::Done) => (
            TrustStage::FirstLook,
            TrustStep::Inspect,
        ),
        (TrustStage::FirstLook, TrustOutcome::Found { complete, verified }) => if is_trusted(
            complete,
            verified,
        ) {
            (TrustStage::SecondLook, TrustStep::Inspect)
        } else if !allow_repair {
            (TrustStage::Finished, TrustStep::Refuse(TrustRefusal::Incomplete))
        } else if complete {
            (TrustStage::Repairing, TrustStep::SignDevice)
        } else {
            (TrustStage::Repairing, TrustStep::Bootstrap)
        },
        (TrustStage::Repairing, TrustOutcome::Done) => (TrustStage::SecondLook, TrustStep::Inspect),
        (TrustStage::SecondLook, TrustOutcome::Found { complete, verified }) => if is_trusted(
            complete,
            verified,
        ) {
            (TrustStage::Finished, TrustStep::Pass)
        } else {
            (TrustStage::Finished, TrustStep::Refuse(TrustRefusal::RepairFailed))
        },
        _ => (TrustStage::Finished, TrustStep::Refuse(TrustRefusal::WorkFailed)),
    }
}

/// How the vetting begins.
pub fn begin_vetting(require_verified: bool) -> (r: (TrustStage, TrustStep))
    ensures
        r == vetting_beginning(require_verified),
{
    if require_verified {
        (TrustStage::Bootstrapping, TrustStep::BootstrapIfNeeded)
    } else {
        (TrustStage::Finished, TrustStep::Pass)
    }
}

/// How the vetting goes on, given what came of the last piece of work.
pub fn resume_vetting(stage: TrustStage, outcome: TrustOutcome, allow_repair: bool) -> (r: (
    TrustStage,
    TrustStep,
))
    ensures
        r == vetting_next(stage, outcome, allow_repair),
{
    match (stage, outcome) {
        (TrustStage::Bootstrapping, TrustOutcome::Done) => (
            TrustStage::FirstLook,
            TrustStep::Inspect,
        ),
        (TrustStage::FirstLook, TrustOutcome::Found { complete, verified }) => {
            if complete && verified {
                (TrustStage::SecondLook, TrustStep::Inspect)
            } else if !allow_repair {
                (TrustStage::Finished, TrustStep::Refuse(TrustRefusal::Incomplete))
            } else if complete {
                (TrustStage::Repairing, TrustStep::SignDevice)
            } else {
                (TrustStage::Repairing, TrustStep::Bootstrap)
            }
        },
        (TrustStage::Repairing, TrustOutcome::Done) => (TrustStage::SecondLook, TrustStep::Inspect),
        (TrustStage::SecondLook, TrustOutcome::Found { complete, verified }) => {
            if complete && verified {
                (TrustStage::Finished, TrustStep::Pass)
            } else {
                (TrustStage::Finished, TrustStep::Refuse(TrustRefusal::RepairFailed))
            }
        },
        _ => (TrustStage::Finished, TrustStep::Refuse(TrustRefusal::WorkFailed)),
    }
}

/// The steps that the vetting takes, given what comes of each piece of work in turn. It ends with
/// the verdict, or with the work whose outcome is not yet known.
pub open spec fn vetting_run(
    stage: TrustStage,
    step: TrustStep,
    outcomes: Seq<TrustOutcome>,
    allow_repair: bool,
) -> Seq<TrustStep>
    decreases outcomes.len(),
{
    if stage == TrustStage::Finished || outcomes.len() == 0 {
        seq![step]
    } else {
        let (next_stage, next_step) = vetting_next(stage, outcomes[0], allow_repair);
        seq![step] + vetting_run(next_stage, next_step, outcomes.skip(1), allow_repair)
    }
}

/// All the steps that the vetting takes from the start.
pub open spec fn vetting_steps(
    require_verified: bool,
    allow_repair: bool,
    outcomes: Seq<TrustOutcome>,
) -> Seq<TrustStep> {
    let (stage, step) = vetting_beginning(require_verified);
    vetting_run(stage, step, outcomes, allow_repair)
}

/// Where enforcement is on, a device passes only if it was found trusted at the last look.
pub proof fn law_only_trusted_devices_pass(
    stage: TrustStage,
    outcome: TrustOutcome,
    allow_repair: bool,
)
    ensures
        vetting_next(stage, outcome, allow_repair).1 == TrustStep::Pass <==> stage
            == TrustStage::SecondLook && outcome == (TrustOutcome::Found {
            complete: true,
            verified: true,
        }),
        vetting_beginning(true).1 != TrustStep::Pass,
{
}

/// True for the steps that change the account's cross-signing identity or sign the device.
pub open spec fn is_repair(step: TrustStep) -> bool {
    step == TrustStep::SignDevice || step == TrustStep::Bootstrap
}

proof fn lemma_run_without_repair(
    stage: TrustStage,
    step: TrustStep,
    outcomes: Seq<TrustOutcome>,
)
    requires
        !is_repair(step),
    ensures
        forall|i: int|
            0 <= i < vetting_run(stage, step, outcomes, false).len() ==> !is_repair(
                #[trigger] vetting_run(stage, step, outcomes, false)[i],
            ),
    decreases outcomes.len(),
{
    if stage != TrustStage::Finished && outcomes.len() > 0 {
        let (next_stage, next_step) = vetting_next(stage, outcomes[0], false);
        lemma_run_without_repair(next_stage, next_step, outcomes.skip(1));
        let rest = vetting_run(next_stage, next_step, outcomes.skip(1), false);
        let all = vetting_run(stage, step, outcomes, false);
        assert forall|i: int| 0 <= i < all.len() implies !is_repair(#[trigger] all[i]) by {
            if i > 0 {
                assert(all[i] == rest[i - 1]);
            }
        }
    }
}

/// Without the authorisation nothing is ever repaired, whatever comes of its work.
pub proof fn law_nothing_is_repaired_unasked(require_verified: bool, outcomes: Seq<TrustOutcome>)
    ensures
        forall|i: int|
            0 <= i < vetting_steps(require_verified, false, outcomes).len() ==> !is_repair(
                #[trigger] vetting_steps(require_verified, false, outcomes)[i],
            ),
{
    let (stage, step) = vetting_beginning(require_verified);
    lemma_run_without_repair(stage, step, outcomes);
}

/// The vetting comes to a verdict after at most four pieces of work.
pub proof fn law_vetting_ends(
    require_verified: bool,
    allow_repair: bool,
    outcomes: Seq<TrustOutcome>,
)
    requires
        outcomes.len() >= 4,
    ensures
        ({
            let last = vetting_steps(require_verified, allow_repair, outcomes).last();
            last == TrustStep::Pass || last is Refuse
        }),
        vetting_steps(require_verified, allow_repair, outcomes).len() <= 5,
{
    reveal_with_fuel(vetting_run, 6);
}

/// The device passes unlooked at where nothing is required of it.
pub proof fn law_unrequired_trust_is_not_vetted(
    allow_repair: bool,
    outcomes: Seq<TrustOutcome>,
)
    ensures
        vetting_steps(false, allow_repair, outcomes) == seq![TrustStep::Pass],
{
}

/// A device that is found trusted is looked at twice, and passes if it still is.
pub proof fn law_trusted_devices_are_looked_at_twice(
    allow_repair: bool,
    complete: bool,
    verified: bool,
)
    ensures
        vetting_steps(
            true,
            allow_repair,
            seq![
                TrustOutcome::Done,
                TrustOutcome::Found { complete: true, verified: true },
                TrustOutcome::Found { complete, verified },
            ],
        ) == seq![
            TrustStep::BootstrapIfNeeded,
            TrustStep::Inspect,
            TrustStep::Inspect,
            if complete && verified {
                TrustStep::Pass
            } else {
                TrustStep::Refuse(TrustRefusal::RepairFailed)
            },
        ],
{
    reveal_with_fuel(vetting_run, 5);
    let outcomes = seq![
        TrustOutcome::Done,
        TrustOutcome::Found { complete: true, verified: true },
        TrustOutcome::Found { complete, verified },
    ];
    assert(outcomes.skip(1)[0] == outcomes[1]);
    assert(outcomes.skip(1).skip(1)[0] == outcomes[2]);
    assert(vetting_steps(true, allow_repair, outcomes) =~= seq![
        TrustStep::BootstrapIfNeeded,
        TrustStep::Inspect,
        TrustStep::Inspect,
        if complete && verified {
            TrustStep::Pass
        } else {
            TrustStep::Refuse(TrustRefusal::RepairFailed)
        },
    ]);
}

/// A device that is found untrusted is refused, or repaired where that is allowed: signed if the
/// identity is complete, else with a new identity. It passes if it is trusted then.
pub proof fn law_untrusted_devices_are_repaired_where_allowed(
    complete: bool,
    verified: bool,
    complete_now: bool,
    verified_now: bool,
)
    requires
        !(complete && verified),
    ensures
        vetting_steps(
            true,
            false,
            seq![TrustOutcome::Done, TrustOutcome::Found { complete, verified }],
        ) == seq![
            TrustStep::BootstrapIfNeeded,
            TrustStep::Inspect,
            TrustStep::Refuse(TrustRefusal::Incomplete),
        ],
        vetting_steps(
            true,
            true,
            seq![
                TrustOutcome::Done,
                TrustOutcome::Found { complete, verified },
                TrustOutcome::Done,
                TrustOutcome::Found { complete: complete_now, verified: verified_now },
            ],
        ) == seq![
            TrustStep::BootstrapIfNeeded,
            TrustStep::Inspect,
            if complete {
                TrustStep::SignDevice
            } else {
                TrustStep::Bootstrap
            },
            TrustStep::Inspect,
            if complete_now && verified_now {
                TrustStep::Pass
            } else {
                TrustStep::Refuse(TrustRefusal::RepairFailed)
            },
        ],
{
    reveal_with_fuel(vetting_run, 6);
    let short = seq![TrustOutcome::Done, TrustOutcome::Found { complete, verified }];
    assert(short.skip(1)[0] == short[1]);
    assert(vetting_steps(true, false, short) =~= seq![
        TrustStep::BootstrapIfNeeded,
        TrustStep::Inspect,
        TrustStep::Refuse(TrustRefusal::Incomplete),
    ]);
    let long = seq![
        TrustOutcome::Done,
        TrustOutcome::Found { complete, verified },
        TrustOutcome::Done,
        TrustOutcome::Found { complete: complete_now, verified: verified_now },
    ];
    assert(long.skip(1)[0] == long[1]);
    assert(long.skip(1).skip(1)[0] == long[2]);
    assert(long.skip(1).skip(1).skip(1)[0] == long[3]);
    assert(vetting_steps(true, true, long) =~= seq![
        TrustStep::BootstrapIfNeeded,
        TrustStep::Inspect,
        if complete {
            TrustStep::SignDevice
        } else {
            TrustStep::Bootstrap
        },
        TrustStep::Inspect,
        if complete_now && verified_now {
            TrustStep::Pass
        } else {
            TrustStep::Refuse(TrustRefusal::RepairFailed)
        },
    ]);
}

/// Work that failed ends the vetting, with the device refused.
pub proof fn law_failed_work_refuses_the_device(stage: TrustStage, allow_repair: bool)
    ensures
        vetting_next(stage, TrustOutcome::Failed, allow_repair) == (
            TrustStage::Finished,
            TrustStep::Refuse(TrustRefusal::WorkFailed),
        ),
{
}

} // verus!
