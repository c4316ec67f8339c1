//! Election of the designated router and its backup.
//!
//! OSPFv3 uses the same algorithm with router ids in place of addresses.
use vstd::prelude::*;

verus! {

/// A router that takes part in the election.
#[derive(Clone, Copy, Debug, PartialEq, Eq, Structural)]
pub struct Candidate {
    /// What names the router on the segment: its router id, or its address in OSPFv2.
    pub id: u32,
    /// The router id, which decides between equal priorities.
    pub router_id: u32,
    pub priority: u8,
    pub declared_dr: u32,
    pub declared_bdr: u32,
}

/// What a pass over the candidates looks for.
#[derive(Clone, Copy, Debug, PartialEq, Eq, Structural)]
pub enum Office {
    /// A backup, among those that do not call themselves designated router.
    Backup,
    /// A designated router, among those that call themselves so.
    Designated,
    /// A backup, among all but the given router.
    BackupBeside(u32),
}

impl Candidate {
    /// Whether the candidate may hold the office.
    pub open spec fn eligible(self, office: Office) -> bool {
        match office {
            Office::Backup => self.declared_dr != self.id,
            Office::Designated => self.declared_dr == self.id,
            Office::BackupBeside(dr) => self.id != dr,
        }
    }

    /// The order of preference: a self-declared backup first (for the first backup pass only),
    /// then the priority, then the router id.
    pub open spec fn rank(self, office: Office) -> int {
        (if office is Backup && self.declared_bdr == self.id {
            0x10000000000int
        } else {
            0int
        }) + self.priority * 0x100000000 + self.router_id
    }

    /// Whether the candidate may hold the office.
    fn is_eligible(&self, office: Office) -> (r: bool)
        ensures
            r == self.eligible(office),
    {
        match office {
            Office::Backup => self.declared_dr != self.id,
            Office::Designated => self.declared_dr == self.id,
            Office::BackupBeside(dr) => self.id != dr,
        }
    }

    /// The order of preference.
    fn rank_of(&self, office: Office) -> (r: u64)
        ensures
            r == self.rank(office),
    {
        let declared: u64 = match office {
            Office::Backup => if self.declared_bdr == self.id {
                0x10000000000
            } else {
                0
            },
            _ => 0,
        };
        declared + (self.priority as u64) * 0x100000000 + self.router_id as u64
    }
}

/// The candidate of the highest rank among the eligible ones.
pub open spec fn best(cs: Seq<Candidate>, office: Office) -> Option<Candidate>
    decreases cs.len(),
{
    if cs.len() == 0 {
        None
    } else {
        let rest = best(cs.drop_last(), office);
        let c = cs.last();
        if !c.eligible(office) {
            rest
        } else {
            match rest {
                None => Some(c),
                Some(b) => if b.rank(office) <= c.rank(office) {
                    Some(c)
                } else {
                    Some(b)
                },
            }
        }
    }
}

/// The id of an optional candidate, 0 for none.
pub open spec fn id_or_zero(c: Option<Candidate>) -> u32 {
    match c {
        Some(x) => x.id,
        None => 0,
    }
}

/// The designated router and the backup that one round over `cs` elects; 0 stands for none.
pub open spec fn elect(cs: Seq<Candidate>) -> (u32, u32) {
    let bdr = best(cs, Office::Backup);
    let dr = match best(cs, Office::Designated) {
        Some(d) => d.id,
        None => id_or_zero(bdr),
    };
    if bdr matches Some(b) && b.id == dr {
        // The backup moved up, so its office is filled anew.
        (dr, id_or_zero(best(cs, Office::BackupBeside(dr))))
    } else {
        (dr, id_or_zero(bdr))
    }
}

/// The candidates with ourselves added, if our priority lets us take part.
pub open spec fn with_self(
    others: Seq<Candidate>,
    id: u32,
    router_id: u32,
    priority: u8,
    dr: u32,
    bdr: u32,
) -> Seq<Candidate> {
    if priority > 0 {
        others.push(Candidate { id, router_id, priority, declared_dr: dr, declared_bdr: bdr })
    } else {
        others
    }
}

/// The outcome for a router that so far took `dr` and `bdr` to hold the offices.
///
/// When the first round changes the role of a router that already had one, a second round runs
/// with the new declarations. Without a prior role there is no incumbent to settle around, and
/// the first round stands.
pub open spec fn outcome(
    others: Seq<Candidate>,
    id: u32,
    router_id: u32,
    priority: u8,
    dr: u32,
    bdr: u32,
) -> (u32, u32) {
    let first = elect(with_self(others, id, router_id, priority, dr, bdr));
    if (dr == id || bdr == id) && ((dr == id) != (first.0 == id) || (bdr == id) != (first.1 == id)) {
        elect(with_self(others, id, router_id, priority, first.0, first.1))
    } else {
        first
    }
}

/// The candidate of the highest rank among the eligible ones.
pub fn find_best(cs: &Vec<Candidate>, office: Office) -> (r: Option<Candidate>)
    ensures
        r == best(cs@, office),
{
    let mut found: Option<Candidate> = None;
    let mut i: usize = 0;
    assert(cs@.take(0) =~= Seq::empty());
    while i < cs.len()
        invariant
            i <= cs@.len(),
            found == best(cs@.take(i as int), office),
        decreases cs.len() - i,
    {
        assert(cs@.take(i + 1).drop_last() =~= cs@.take(i as int));
        let c = cs[i];
        if c.is_eligible(office) {
            match found {
                None => {
                    found = Some(c);
                },
                Some(b) => {
                    if b.rank_of(office) <= c.rank_of(office) {
                        found = Some(c);
                    }
                },
            }
        }
        i = i + 1;
    }
    assert(cs@.take(i as int) =~= cs@);
    found
}

/// One round over the candidates.
pub fn run_round(cs: &Vec<Candidate>) -> (r: (u32, u32))
    ensures
        r == elect(cs@),
{
    let backup = find_best(cs, Office::Backup);
    let bdr_id: u32 = match backup {
        Some(b) => b.id,
        None => 0,
    };
    let dr: u32 = match find_best(cs, Office::Designated) {
        Some(d) => d.id,
        None => bdr_id,
    };
    if backup.is_some() && bdr_id == dr {
        let second: u32 = match find_best(cs, Office::BackupBeside(dr)) {
            Some(b) => b.id,
            None => 0,
        };
        (dr, second)
    } else {
        (dr, bdr_id)
    }
}

/// The election as a router runs it; `others` holds the candidates besides ourselves.
pub fn run_election(others: &Vec<Candidate>, id: u32, router_id: u32, priority: u8, dr: u32, bdr: u32) -> (r: (
    u32,
    u32,
))
    ensures
        r == outcome(others@, id, router_id, priority, dr, bdr),
{
    let first = round_with_self(others, id, router_id, priority, dr, bdr);
    let had_role = dr == id || bdr == id;
    if had_role && ((dr == id) != (first.0 == id) || (bdr == id) != (first.1 == id)) {
        round_with_self(others, id, router_id, priority, first.0, first.1)
    } else {
        first
    }
}

/// One round with ourselves among the candidates.
fn round_with_self(others: &Vec<Candidate>, id: u32, router_id: u32, priority: u8, dr: u32, bdr: u32) -> (r: (
    u32,
    u32,
))
    ensures
        r == elect(with_self(others@, id, router_id, priority, dr, bdr)),
{
    let mut cs: Vec<Candidate> = Vec::new();
    let mut i: usize = 0;
    while i < others.len()
        invariant
            i <= others@.len(),
            cs@ == others@.take(i as int),
        decreases others.len() - i,
    {
        cs.push(others[i]);
        i = i + 1;
        assert(cs@ =~= others@.take(i as int));
    }
    assert(cs@ =~= others@);
    if priority > 0 {
        cs.push(Candidate { id, router_id, priority, declared_dr: dr, declared_bdr: bdr });
    }
    run_round(&cs)
}

/// The best candidate is eligible and no eligible candidate outranks it; there is none exactly when
/// nobody is eligible.
pub proof fn lemma_best(cs: Seq<Candidate>, office: Office)
    ensures
        match best(cs, office) {
            Some(b) => cs.contains(b) && b.eligible(office) && forall|i: int|
                0 <= i < cs.len() && (#[trigger] cs[i]).eligible(office) ==> cs[i].rank(office)
                    <= b.rank(office),
            None => forall|i: int| 0 <= i < cs.len() ==> !(#[trigger] cs[i]).eligible(office),
        },
    decreases cs.len(),
{
    if cs.len() > 0 {
        let front = cs.drop_last();
        lemma_best(front, office);
        assert forall|i: int| 0 <= i < cs.len() - 1 implies #[trigger] cs[i] == front[i] by {}
        assert(cs.last() == cs[cs.len() - 1]);
        match best(front, office) {
            Some(b) => {
                let k = choose|k: int| 0 <= k < front.len() && front[k] == b;
                assert(cs[k] == b);
            },
            None => {},
        }
    }
}

/// A router that alone calls itself designated router stays so, whatever the others' priorities.
pub proof fn lemma_incumbent_stays(cs: Seq<Candidate>, k: int)
    requires
        0 <= k < cs.len(),
        cs[k].declared_dr == cs[k].id,
        forall|i: int|
            0 <= i < cs.len() && (#[trigger] cs[i]).declared_dr == cs[i].id ==> cs[i].id
                == cs[k].id,
    ensures
        elect(cs).0 == cs[k].id,
{
    lemma_best(cs, Office::Designated);
    assert(cs[k].eligible(Office::Designated));
}

/// No router holds both offices.
pub proof fn lemma_offices_differ(cs: Seq<Candidate>)
    ensures
        elect(cs).0 != 0 ==> elect(cs).0 != elect(cs).1,
{
    lemma_best(cs, Office::BackupBeside(elect(cs).0));
}

/// With nobody else on the segment a router of nonzero priority becomes designated router and
/// nobody becomes backup.
pub proof fn lemma_alone(id: u32, router_id: u32, priority: u8)
    requires
        priority > 0,
        id != 0,
    ensures
        outcome(Seq::empty(), id, router_id, priority, 0, 0) == (id, 0u32),
{
    let cs = with_self(Seq::empty(), id, router_id, priority, 0, 0);
    assert(cs.len() == 1);
    lemma_best(cs, Office::Backup);
    lemma_best(cs, Office::Designated);
    lemma_best(cs, Office::BackupBeside(id));
    assert(cs[0].eligible(Office::Backup));
}

} // verus!
