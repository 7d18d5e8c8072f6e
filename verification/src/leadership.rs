//! Leadership: one holder per role, for as long as its lease runs.
use vstd::prelude::*;
use vstd::string::*;
use crate::order::{find_row, lemma_first, Keep};
use crate::rows::{Leader, LeaderView};
use crate::store::{Store, StoreView};
use crate::table::{amended, any, lemma_any_same, update_any, Rule};
use crate::text::{before, lex_lt, same};

verus! {

/// The role can be taken over: the holder has it already, or its lease has run out.
pub open spec fn yields(l: LeaderView, role: Seq<char>, holder: Seq<char>, now: Seq<char>) -> bool {
    l.role == role && (l.holder == holder || lex_lt(l.lease_expires_at, now))
}

/// The holder gets the role.
pub open spec fn wins(leaders: Seq<LeaderView>, role: Seq<char>, holder: Seq<char>, now: Seq<char>) -> bool {
    any(leaders, |l: LeaderView| yields(l, role, holder, now)) || !any(
        leaders,
        |l: LeaderView| l.role == role,
    )
}

/// The leaders after a bid for a role.
pub open spec fn after_bid(
    leaders: Seq<LeaderView>,
    role: Seq<char>,
    holder: Seq<char>,
    now: Seq<char>,
    until: Seq<char>,
) -> Seq<LeaderView> {
    if any(leaders, |l: LeaderView| l.role == role) {
        amended(
            leaders,
            |l: LeaderView| yields(l, role, holder, now),
            |l: LeaderView| LeaderView { holder, lease_expires_at: until, ..l },
        )
    } else {
        leaders.push(LeaderView { role, holder, lease_expires_at: until })
    }
}

struct Bid<'a> {
    role: &'a str,
    holder: &'a str,
    now: &'a str,
    until: &'a str,
}

impl<'a> Rule<Leader> for Bid<'a> {
    closed spec fn hits(&self, l: LeaderView) -> bool {
        yields(l, self.role@, self.holder@, self.now@)
    }

    closed spec fn image(&self, l: LeaderView) -> LeaderView {
        LeaderView { holder: self.holder@, lease_expires_at: self.until@, ..l }
    }

    closed spec fn fits(&self, l: LeaderView) -> bool {
        true
    }

    fn apply(&self, row: &mut Leader) -> (hit: bool) {
        if same(row.role.as_str(), self.role) && (same(row.holder.as_str(), self.holder) || before(
            row.lease_expires_at.as_str(),
            self.now,
        )) {
            row.holder = self.holder.to_owned();
            row.lease_expires_at = self.until.to_owned();
            true
        } else {
            false
        }
    }
}

struct RoleNamed<'a> {
    role: &'a str,
}

impl<'a> Keep<Leader> for RoleNamed<'a> {
    closed spec fn keeps(&self, l: LeaderView) -> bool {
        l.role == self.role@
    }

    fn keep(&self, row: &Leader) -> (r: bool) {
        same(row.role.as_str(), self.role)
    }
}

/// Takes or renews a role until `lease_until`. The bid wins where nobody holds
/// the role, the bidder holds it already, or the holder's lease has run out.
pub fn try_acquire_leadership(
    db: &mut Store,
    role: &str,
    holder: &str,
    now: &str,
    lease_until: &str,
) -> (won: bool)
    ensures
        won == wins(old(db)@.leaders, role@, holder@, now@),
        final(db)@ == (StoreView {
            leaders: after_bid(old(db)@.leaders, role@, holder@, now@, lease_until@),
            ..old(db)@
        }),
{
    let ghost was = db@;
    let keep: RoleNamed = RoleNamed { role };
    let found: Option<usize> = find_row(&db.leaders, &keep);
    proof {
        let p = |l: LeaderView| l.role == role@;
        assert(p =~= (|l: LeaderView| keep.keeps(l)));
        lemma_first(was.leaders, p);
    }
    if found.is_none() {
        let row: Leader = Leader {
            role: role.to_owned(),
            holder: holder.to_owned(),
            lease_expires_at: lease_until.to_owned(),
        };
        let ghost r = row@;
        db.leaders.push(row);
        assert(db@.leaders =~= was.leaders.push(r));
        return true;
    }
    let rule: Bid = Bid { role, holder, now, until: lease_until };
    let won: bool = update_any(&mut db.leaders, &rule);
    proof {
        lemma_any_same(
            was.leaders,
            |l: LeaderView| rule.hits(l),
            |l: LeaderView| yields(l, role@, holder@, now@),
        );
    }
    assert(db@.leaders =~= amended(
        was.leaders,
        |l: LeaderView| yields(l, role@, holder@, now@),
        |l: LeaderView| LeaderView { holder: holder@, lease_expires_at: lease_until@, ..l },
    ));
    won
}

/// While a holder's lease runs, no other bid for its role wins or changes
/// anything, and the holder's own does.
pub proof fn law_leadership_is_exclusive(
    leaders: Seq<LeaderView>,
    role: Seq<char>,
    other: Seq<char>,
    now: Seq<char>,
    until: Seq<char>,
    i: int,
)
    requires
        0 <= i < leaders.len(),
        leaders[i].role == role,
        forall|k: int|
            0 <= k < leaders.len() && (#[trigger] leaders[k]).role == role ==> k == i,
        !lex_lt(leaders[i].lease_expires_at, now),
    ensures
        other != leaders[i].holder ==> !wins(leaders, role, other, now) && after_bid(
            leaders,
            role,
            other,
            now,
            until,
        ) == leaders,
        wins(leaders, role, leaders[i].holder, now),
{
    let p = |l: LeaderView| l.role == role;
    assert(p(leaders[i]));
    assert(any(leaders, p));
    if other != leaders[i].holder {
        let y = |l: LeaderView| yields(l, role, other, now);
        assert forall|k: int| 0 <= k < leaders.len() implies !y(#[trigger] leaders[k]) by {}
        assert(after_bid(leaders, role, other, now, until) =~= leaders);
    }
    let own = |l: LeaderView| yields(l, role, leaders[i].holder, now);
    assert(own(leaders[i]));
}

} // verus!
