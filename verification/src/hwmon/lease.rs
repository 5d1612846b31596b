//! Who may write to the fan headers: one writer at a time.
//!
//! A writer takes the token, which runs out after a while unless it is renewed. A writer
//! that safety rests on takes the token by force; the token that it takes away is then
//! no longer good for anything.

use crate::clock::{Duration, Instant};
use crate::text;
use crate::text::{decimal_of, str_eq};
use vstd::prelude::*;
use vstd::string::*;

verus! {

/// How long a token is good for unless told otherwise, in seconds.
pub const DEFAULT_LEASE_TTL_SECS: u64 = 60;

/// Those that write to the fan headers.
#[derive(Debug, Clone, Copy, PartialEq, Eq, Structural)]
pub enum HwmonWriter {
    /// The profile engine, with every tick.
    Engine,
    /// A hardware test.
    Verify,
    /// The thermal safety rule.
    ThermalSafety,
}

impl HwmonWriter {
    /// The name of the writer.
    pub open spec fn word(self) -> Seq<char> {
        match self {
            HwmonWriter::Engine => "profile-engine"@,
            HwmonWriter::Verify => "verify"@,
            HwmonWriter::ThermalSafety => "thermal-safety"@,
        }
    }

    /// The name of the writer.
    pub fn as_str(self) -> (r: &'static str)
        ensures
            r@ == self.word(),
    {
        match self {
            HwmonWriter::Engine => "profile-engine",
            HwmonWriter::Verify => "verify",
            HwmonWriter::ThermalSafety => "thermal-safety",
        }
    }
}

/// A token: leave to write to the fan headers.
#[derive(Debug)]
pub struct HwmonLease {
    /// What tells it from every other.
    pub lease_id: String,
    /// Who holds it.
    pub owner: HwmonWriter,
    /// When it runs out.
    pub expires_at: Instant,
}

/// What a token says.
#[verifier::ext_equal]
pub struct LeaseView {
    pub lease_id: Seq<char>,
    pub owner: HwmonWriter,
    pub expires_at: Instant,
}

impl View for HwmonLease {
    type V = LeaseView;

    open spec fn view(&self) -> LeaseView {
        LeaseView {
            lease_id: self.lease_id@,
            owner: self.owner,
            expires_at: self.expires_at,
        }
    }
}

impl Clone for HwmonLease {
    fn clone(&self) -> (r: Self)
        ensures
            r == *self,
    {
        HwmonLease {
            lease_id: self.lease_id.clone(),
            owner: self.owner,
            expires_at: self.expires_at,
        }
    }
}

/// Why a token is not given or not good.
#[derive(Debug, Clone, Copy, PartialEq, Eq, Structural)]
pub enum LeaseError {
    /// Another writer holds the token, for so many more seconds.
    AlreadyHeld { owner: HwmonWriter, ttl_seconds: u64 },
    /// It is not the id of the token.
    InvalidLease,
    /// It is the id of the token, and the token has run out.
    Expired,
    /// There is no token to release.
    NoLease,
}

impl LeaseError {
    /// The error in words.
    pub open spec fn words(self) -> Seq<char> {
        match self {
            LeaseError::AlreadyHeld { owner, ttl_seconds } => "lease already held by '"@
                + owner.word() + "' (expires in "@ + text::decimal(ttl_seconds as nat) + "s)"@,
            LeaseError::InvalidLease => "invalid lease id"@,
            LeaseError::Expired => "lease expired"@,
            LeaseError::NoLease => "no active lease to release"@,
        }
    }

    /// The error in words.
    pub fn message(self) -> (r: String)
        ensures
            r@ == self.words(),
    {
        match self {
            LeaseError::AlreadyHeld { owner, ttl_seconds } => {
                let mut s: String = "lease already held by '".to_owned();
                s.append(owner.as_str());
                s.append("' (expires in ");
                s.append(decimal_of(ttl_seconds).as_str());
                s.append("s)");
                s
            },
            LeaseError::InvalidLease => "invalid lease id".to_owned(),
            LeaseError::Expired => "lease expired".to_owned(),
            LeaseError::NoLease => "no active lease to release".to_owned(),
        }
    }
}

/// The one who gives out the token.
#[derive(Debug)]
pub struct LeaseManager {
    active: Option<HwmonLease>,
    ttl: Duration,
    next_id: u64,
}

/// What the token and its keeper are.
#[verifier::ext_equal]
pub struct ManagerView {
    /// The token that was given out last, where it was not released.
    pub active: Option<LeaseView>,
    /// How long a token is good for.
    pub ttl: Duration,
    /// The number of the next token.
    pub next_id: nat,
}

/// The id of the token with a number.
pub open spec fn lease_id_of(n: nat) -> Seq<char> {
    "lease-"@ + text::decimal(n)
}

impl ManagerView {
    /// Whether the token is one that was given out before the next.
    pub open spec fn wf(self) -> bool {
        match self.active {
            Some(lease) => exists|n: nat|
                n < self.next_id && lease.lease_id == #[trigger] lease_id_of(n),
            None => true,
        }
    }

    /// The token that is good at a time.
    pub open spec fn good_at(self, now: Instant) -> Option<LeaseView> {
        match self.active {
            Some(lease) => if now.nanos < lease.expires_at.nanos {
                Some(lease)
            } else {
                None
            },
            None => None,
        }
    }

    /// The token that a writer gets at a time.
    pub open spec fn granted(self, owner: HwmonWriter, now: Instant) -> LeaseView {
        LeaseView {
            lease_id: lease_id_of(self.next_id),
            owner,
            expires_at: now.later(self.ttl),
        }
    }

    /// The keeper after a writer was given the token.
    pub open spec fn after_grant(self, owner: HwmonWriter, now: Instant) -> ManagerView {
        ManagerView {
            active: Some(self.granted(owner, now)),
            ttl: self.ttl,
            next_id: self.next_id + 1,
        }
    }

    /// What is wrong with an id at a time, if anything is.
    pub open spec fn fault_of(self, lease_id: Seq<char>, now: Instant) -> Option<LeaseError> {
        match self.active {
            Some(lease) => if lease.lease_id != lease_id {
                Some(LeaseError::InvalidLease)
            } else if now.nanos < lease.expires_at.nanos {
                None
            } else {
                Some(LeaseError::Expired)
            },
            None => Some(LeaseError::InvalidLease),
        }
    }
}

impl View for LeaseManager {
    type V = ManagerView;

    closed spec fn view(&self) -> ManagerView {
        ManagerView {
            active: match self.active {
                Some(lease) => Some(lease@),
                None => None,
            },
            ttl: self.ttl,
            next_id: self.next_id as nat,
        }
    }
}

impl LeaseManager {
    /// A keeper with no token given out, and tokens that are good for a minute.
    pub fn new() -> (r: Self)
        ensures
            r@ == (ManagerView {
                active: None,
                ttl: Duration { nanos: 60_000_000_000 },
                next_id: 1,
            }),
    {
        Self::with_ttl(Duration::from_secs(DEFAULT_LEASE_TTL_SECS))
    }

    /// A keeper with no token given out.
    pub fn with_ttl(ttl: Duration) -> (r: Self)
        ensures
            r@ == (ManagerView { active: None, ttl, next_id: 1 }),
    {
        LeaseManager { active: None, ttl, next_id: 1 }
    }

    /// Whether there is a number left for another token.
    pub fn can_grant(&self) -> (r: bool)
        ensures
            r == (self@.next_id < u64::MAX),
    {
        self.next_id < u64::MAX
    }

    /// Gives the token out, if no good one is held.
    pub fn take_lease(&mut self, owner: HwmonWriter, now: Instant) -> (r: Result<
        HwmonLease,
        LeaseError,
    >)
        requires
            old(self)@.wf(),
            old(self)@.good_at(now) is None ==> old(self)@.next_id < u64::MAX,
        ensures
            final(self)@.wf(),
            match old(self)@.good_at(now) {
                Some(held) => {
                    &&& r == Err::<HwmonLease, LeaseError>(
                        LeaseError::AlreadyHeld {
                            owner: held.owner,
                            ttl_seconds: (held.expires_at.nanos_since(now)
                                / 1_000_000_000) as u64,
                        },
                    )
                    &&& final(self)@ == old(self)@
                },
                None => {
                    &&& r matches Ok(lease)
                    &&& lease@ == old(self)@.granted(owner, now)
                    &&& final(self)@ == old(self)@.after_grant(owner, now)
                },
            },
            final(self)@ == (if old(self)@.good_at(now) is None {
                stepped(old(self)@, LeaseStep::Granted { owner, now })
            } else {
                old(self)@
            }),
    {
        if let Some(lease) = &self.active {
            if now.nanos < lease.expires_at.nanos {
                return Err(
                    LeaseError::AlreadyHeld {
                        owner: lease.owner,
                        ttl_seconds: lease.expires_at.saturating_duration_since(now).as_secs(),
                    },
                );
            }
        }
        Ok(self.grant(owner, now))
    }

    fn grant(&mut self, owner: HwmonWriter, now: Instant) -> (r: HwmonLease)
        requires
            old(self)@.next_id < u64::MAX,
        ensures
            r@ == old(self)@.granted(owner, now),
            final(self)@ == old(self)@.after_grant(owner, now),
            final(self)@.wf(),
    {
        let mut lease_id: String = "lease-".to_owned();
        lease_id.append(decimal_of(self.next_id).as_str());
        let lease = HwmonLease { lease_id, owner, expires_at: now.after(self.ttl) };
        self.next_id += 1;
        self.active = Some(lease.clone());
        assert(self@.active->0.lease_id == lease_id_of(old(self)@.next_id));
        lease
    }

    /// Releases the token with an id.
    pub fn release_lease(&mut self, lease_id: &str) -> (r: Result<(), LeaseError>)
        requires
            old(self)@.wf(),
        ensures
            final(self)@.wf(),
            final(self)@ == stepped(old(self)@, LeaseStep::Released { lease_id: lease_id@ }),
            match old(self)@.active {
                Some(lease) => if lease.lease_id == lease_id@ {
                    &&& r is Ok
                    &&& final(self)@ == (ManagerView { active: None, ..old(self)@ })
                } else {
                    &&& r == Err::<(), LeaseError>(LeaseError::InvalidLease)
                    &&& final(self)@ == old(self)@
                },
                None => {
                    &&& r == Err::<(), LeaseError>(LeaseError::NoLease)
                    &&& final(self)@ == old(self)@
                },
            },
    {
        let matching: bool = match &self.active {
            Some(lease) => str_eq(lease.lease_id.as_str(), lease_id),
            None => {
                return Err(LeaseError::NoLease);
            },
        };
        if matching {
            self.active = None;
            Ok(())
        } else {
            Err(LeaseError::InvalidLease)
        }
    }

    /// Whether an id is that of the good token.
    pub fn validate_lease(&self, lease_id: &str, now: Instant) -> (r: Result<(), LeaseError>)
        ensures
            r == (match self@.fault_of(lease_id@, now) {
                Some(e) => Err::<(), LeaseError>(e),
                None => Ok(()),
            }),
    {
        match &self.active {
            Some(lease) => if !str_eq(lease.lease_id.as_str(), lease_id) {
                Err(LeaseError::InvalidLease)
            } else if now.nanos < lease.expires_at.nanos {
                Ok(())
            } else {
                Err(LeaseError::Expired)
            },
            None => Err(LeaseError::InvalidLease),
        }
    }

    /// Makes the good token with an id last from now on.
    pub fn renew_lease(&mut self, lease_id: &str, now: Instant) -> (r: Result<
        HwmonLease,
        LeaseError,
    >)
        requires
            old(self)@.wf(),
        ensures
            final(self)@.wf(),
            final(self)@ == stepped(old(self)@, LeaseStep::Renewed { lease_id: lease_id@, now }),
            match old(self)@.fault_of(lease_id@, now) {
                Some(e) => {
                    &&& r == Err::<HwmonLease, LeaseError>(e)
                    &&& final(self)@ == old(self)@
                },
                None => {
                    let renewed = LeaseView {
                        expires_at: now.later(old(self)@.ttl),
                        ..old(self)@.active->0
                    };
                    &&& r matches Ok(lease)
                    &&& lease@ == renewed
                    &&& final(self)@ == (ManagerView { active: Some(renewed), ..old(self)@ })
                },
            },
    {
        match self.validate_lease(lease_id, now) {
            Err(e) => Err(e),
            Ok(()) => match &self.active {
                Some(lease) => {
                    let renewed = HwmonLease {
                        lease_id: lease.lease_id.clone(),
                        owner: lease.owner,
                        expires_at: now.after(self.ttl),
                    };
                    self.active = Some(renewed.clone());
                    Ok(renewed)
                },
                None => Err(LeaseError::InvalidLease),
            },
        }
    }

    /// Gives the token out, whoever holds it. For the writers that safety rests on.
    pub fn force_take_lease(&mut self, owner: HwmonWriter, now: Instant) -> (r: HwmonLease)
        requires
            old(self)@.wf(),
            old(self)@.next_id < u64::MAX,
        ensures
            final(self)@.wf(),
            r@ == old(self)@.granted(owner, now),
            final(self)@ == old(self)@.after_grant(owner, now),
            final(self)@ == stepped(old(self)@, LeaseStep::Granted { owner, now }),
    {
        self.grant(owner, now)
    }

    /// The good token, where there is one.
    pub fn active_lease(&self, now: Instant) -> (r: Option<&HwmonLease>)
        ensures
            match r {
                Some(lease) => self@.good_at(now) == Some(lease@),
                None => self@.good_at(now) is None,
            },
    {
        match &self.active {
            Some(lease) => if now.nanos < lease.expires_at.nanos {
                Some(lease)
            } else {
                None
            },
            None => None,
        }
    }
}

impl Default for LeaseManager {
    fn default() -> (r: Self)
        ensures
            r@ == (ManagerView {
                active: None,
                ttl: Duration { nanos: 60_000_000_000 },
                next_id: 1,
            }),
    {
        Self::new()
    }
}

// ---------------------------------------------------------------------------
// Laws
// ---------------------------------------------------------------------------

/// No two tokens have the same id.
pub proof fn lease_ids_are_unique(a: nat, b: nat)
    requires
        lease_id_of(a) == lease_id_of(b),
    ensures
        a == b,
{
    let n = "lease-"@.len() as int;
    assert(lease_id_of(a).skip(n) =~= text::decimal(a));
    assert(lease_id_of(b).skip(n) =~= text::decimal(b));
    text::decimal_tells_numbers_apart(a, b);
}

/// Giving the token out makes every token that was given out before worthless, whenever
/// it is shown: its id is not that of the token any more.
pub proof fn a_new_token_voids_every_earlier_one(
    m: ManagerView,
    owner: HwmonWriter,
    taken_at: Instant,
    earlier: nat,
    shown_at: Instant,
)
    requires
        earlier < m.next_id,
    ensures
        m.after_grant(owner, taken_at).fault_of(lease_id_of(earlier), shown_at) == Some(
            LeaseError::InvalidLease,
        ),
{
    if lease_id_of(earlier) == lease_id_of(m.next_id) {
        lease_ids_are_unique(earlier, m.next_id);
    }
}

/// In particular the token that was held is worthless.
pub proof fn a_forced_take_voids_the_held_token(
    m: ManagerView,
    owner: HwmonWriter,
    taken_at: Instant,
    shown_at: Instant,
)
    requires
        m.wf(),
        m.active is Some,
    ensures
        m.after_grant(owner, taken_at).fault_of(m.active->0.lease_id, shown_at) == Some(
            LeaseError::InvalidLease,
        ),
{
    let n = choose|n: nat|
        n < m.next_id && m.active->0.lease_id == #[trigger] lease_id_of(n);
    a_new_token_voids_every_earlier_one(m, owner, taken_at, n, shown_at);
}

/// The token that was just given out is good until it runs out, and from then on it is
/// told as run out and not as someone else's. While it is good no one else gets one.
pub proof fn a_token_is_good_until_it_runs_out(
    m: ManagerView,
    owner: HwmonWriter,
    taken_at: Instant,
    shown_at: Instant,
)
    ensures
        ({
            let after = m.after_grant(owner, taken_at);
            let id = m.granted(owner, taken_at).lease_id;
            if shown_at.nanos < taken_at.later(m.ttl).nanos {
                after.fault_of(id, shown_at) is None && after.good_at(shown_at) == Some(
                    m.granted(owner, taken_at),
                )
            } else {
                after.fault_of(id, shown_at) == Some(LeaseError::Expired) && after.good_at(
                    shown_at,
                ) is None
            }
        }),
{
}

/// What happens to the token.
pub enum LeaseStep {
    Granted { owner: HwmonWriter, now: Instant },
    Released { lease_id: Seq<char> },
    Renewed { lease_id: Seq<char>, now: Instant },
}

/// The keeper after a step. Releasing or renewing a token that is not the good one changes
/// nothing.
pub open spec fn stepped(m: ManagerView, step: LeaseStep) -> ManagerView {
    match step {
        LeaseStep::Granted { owner, now } => m.after_grant(owner, now),
        LeaseStep::Released { lease_id } => match m.active {
            Some(lease) => if lease.lease_id == lease_id {
                ManagerView { active: None, ..m }
            } else {
                m
            },
            None => m,
        },
        LeaseStep::Renewed { lease_id, now } => if m.fault_of(lease_id, now) is None {
            ManagerView {
                active: Some(LeaseView { expires_at: now.later(m.ttl), ..m.active->0 }),
                ..m
            }
        } else {
            m
        },
    }
}

/// The keeper after steps.
pub open spec fn after_steps(m: ManagerView, steps: Seq<LeaseStep>) -> ManagerView
    decreases steps.len(),
{
    if steps.len() == 0 {
        m
    } else {
        stepped(after_steps(m, steps.drop_last()), steps.last())
    }
}

proof fn lemma_numbers_only_rise(m: ManagerView, steps: Seq<LeaseStep>)
    ensures
        after_steps(m, steps).next_id >= m.next_id,
        after_steps(m, steps).ttl == m.ttl,
    decreases steps.len(),
{
    if steps.len() > 0 {
        lemma_numbers_only_rise(m, steps.drop_last());
    }
}

/// A forced take gives its writer a token that is good from that moment on for as long as
/// tokens are, and makes every token worthless that was ever given out before it, whatever
/// happened in between and whether or not that token had run out.
pub proof fn a_forced_take_voids_whatever_was_given_before(
    m: ManagerView,
    first_owner: HwmonWriter,
    first_at: Instant,
    steps: Seq<LeaseStep>,
    owner: HwmonWriter,
    now: Instant,
    shown_at: Instant,
)
    ensures
        ({
            let earlier = m.granted(first_owner, first_at).lease_id;
            let before = after_steps(m.after_grant(first_owner, first_at), steps);
            let token = before.granted(owner, now);
            let after = before.after_grant(owner, now);
            &&& after.fault_of(earlier, shown_at) == Some(LeaseError::InvalidLease)
            &&& token.owner == owner
            &&& token.expires_at == now.later(m.ttl)
            &&& now.nanos + m.ttl.nanos <= u128::MAX && m.ttl.nanos > 0 ==> after.fault_of(
                token.lease_id,
                now,
            ) is None
        }),
{
    let start = m.after_grant(first_owner, first_at);
    lemma_numbers_only_rise(start, steps);
    a_new_token_voids_every_earlier_one(
        after_steps(start, steps),
        owner,
        now,
        m.next_id,
        shown_at,
    );
}

/// While a token is good the keeper has it for its owner: it is good until the moment it
/// runs out and not from then on, and without a token none is good.
pub proof fn a_token_is_good_before_it_runs_out(m: ManagerView, now: Instant)
    ensures
        m.active is None ==> m.good_at(now) is None,
        m.active matches Some(lease) ==> (m.good_at(now) is Some <==> now.nanos
            < lease.expires_at.nanos),
        m.good_at(now) is Some ==> m.good_at(now) == m.active,
{
}

/// What an id is answered: it is good exactly where it is that of the good token; the id of
/// one that ran out is told so, and any other id is invalid.
pub proof fn an_id_is_answered_by_the_token(m: ManagerView, lease_id: Seq<char>, now: Instant)
    ensures
        m.fault_of(lease_id, now) is None <==> (m.good_at(now) matches Some(lease)
            && lease.lease_id == lease_id),
        m.fault_of(lease_id, now) == Some(LeaseError::Expired) <==> (m.active matches Some(lease)
            && lease.lease_id == lease_id && lease.expires_at.nanos <= now.nanos),
        m.fault_of(lease_id, now) == Some(LeaseError::InvalidLease) <==> !(m.active matches Some(
            lease,
        ) && lease.lease_id == lease_id),
{
}

/// A token that is renewed in time stays the same token of the same owner, and is good for
/// as long again from then on; a renewal with a wrong id, or of one that ran out, changes
/// nothing.
pub proof fn a_renewed_token_is_good_again(
    m: ManagerView,
    lease_id: Seq<char>,
    now: Instant,
    later: Instant,
)
    ensures
        ({
            let after = stepped(m, LeaseStep::Renewed { lease_id, now });
            &&& m.fault_of(lease_id, now) is None ==> {
                &&& after.active matches Some(lease) && lease.lease_id == lease_id && lease.owner
                    == m.active->0.owner && lease.expires_at == now.later(m.ttl)
                &&& after.fault_of(lease_id, later) is None <==> later.nanos < now.later(m.ttl).nanos
            }
            &&& m.fault_of(lease_id, now) is Some ==> after == m
            &&& after.next_id == m.next_id
            &&& after.ttl == m.ttl
        }),
{
}

/// A token that was released is good for nothing any more, and frees the way for the next;
/// an id that is not the token's releases nothing.
pub proof fn a_released_token_is_gone(m: ManagerView, lease_id: Seq<char>, now: Instant)
    ensures
        ({
            let after = stepped(m, LeaseStep::Released { lease_id });
            &&& (m.active matches Some(lease) && lease.lease_id == lease_id) ==> after.active is None
                && after.good_at(now) is None && after.fault_of(lease_id, now) == Some(
                LeaseError::InvalidLease,
            )
            &&& !(m.active matches Some(lease) && lease.lease_id == lease_id) ==> after == m
            &&& after.next_id == m.next_id
        }),
{
}

/// The token that a writer gets is its own, has a number that none had before, and is good
/// for as long as tokens are.
pub proof fn a_writer_gets_a_token_of_its_own(m: ManagerView, owner: HwmonWriter, now: Instant)
    ensures
        ({
            let token = m.granted(owner, now);
            let after = m.after_grant(owner, now);
            &&& token.owner == owner
            &&& token.lease_id == "lease-"@ + text::decimal(m.next_id)
            &&& token.expires_at == now.later(m.ttl)
            &&& after.active == Some(token)
            &&& after.next_id == m.next_id + 1
            &&& after.ttl == m.ttl
            &&& after.wf()
        }),
{
    assert(m.after_grant(owner, now).active->0.lease_id == lease_id_of(m.next_id));
}

/// The name of a writer tells the writer.
pub proof fn writers_are_told_apart(a: HwmonWriter, b: HwmonWriter)
    ensures
        a.word() == b.word() ==> a == b,
        a.word() == "profile-engine"@ <==> a == HwmonWriter::Engine,
        a.word() == "verify"@ <==> a == HwmonWriter::Verify,
        a.word() == "thermal-safety"@ <==> a == HwmonWriter::ThermalSafety,
{
    reveal_strlit("profile-engine");
    reveal_strlit("verify");
    reveal_strlit("thermal-safety");
    assert("profile-engine"@[0] == 'p');
    assert("verify"@[0] == 'v');
    assert("thermal-safety"@[0] == 't');
}

/// The error of a refused take tells who holds the token: errors of two holders differ. The
/// other errors have words of their own.
pub proof fn lease_errors_are_told_apart(a: LeaseError)
    ensures
        a.words() == "invalid lease id"@ <==> a == LeaseError::InvalidLease,
        a.words() == "lease expired"@ <==> a == LeaseError::Expired,
        a.words() == "no active lease to release"@ <==> a == LeaseError::NoLease,
        a matches LeaseError::AlreadyHeld { owner, ttl_seconds } ==> {
            &&& text::is_around(
                a.words(),
                "lease already held by '"@,
                owner.word(),
                "' (expires in "@ + text::decimal(ttl_seconds as nat) + "s)"@,
            )
        },
{
    reveal_strlit("invalid lease id");
    reveal_strlit("lease expired");
    reveal_strlit("no active lease to release");
    reveal_strlit("lease already held by '");
    assert("invalid lease id"@[0] == 'i');
    assert("lease expired"@.len() == 13 && "lease expired"@[0] == 'l' && "lease expired"@[6]
        == 'e');
    assert("no active lease to release"@[0] == 'n');
    assert("lease already held by '"@.len() == 23);
    if let LeaseError::AlreadyHeld { owner, ttl_seconds } = a {
        assert(a.words()[0] == 'l');
        assert(a.words()[6] == 'a');
        let tail = "' (expires in "@ + text::decimal(ttl_seconds as nat) + "s)"@;
        assert(a.words() =~= "lease already held by '"@ + owner.word() + tail);
    }
}

} // verus!
