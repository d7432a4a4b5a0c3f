//! Who shared an area.

use vstd::prelude::*;

use super::model::{AreaId, AtlasId, UserId};
use super::scopes::ScopeTarget;
use crate::list;
use crate::text::{self, clone_opt, join2, join3};

verus! {

/// The friend who shared a map. Groups go by the identity: a nickname may be
/// missing.
pub struct Sharer<N = Option<String>> {
    pub user_id: UserId,
    pub nickname: N,
    /// The nickname of the map's owner, as far as the grant tells it.
    pub owner_nickname: N,
}

pub type SharerView = Sharer<Option<Seq<char>>>;

impl View for Sharer<Option<String>> {
    type V = SharerView;

    open spec fn view(&self) -> SharerView {
        Sharer {
            user_id: self.user_id,
            nickname: text::opt_text(self.nickname),
            owner_nickname: text::opt_text(self.owner_nickname),
        }
    }
}

/// A received grant.
pub struct ShareGrant {
    pub grantor_id: UserId,
    pub area_id: Option<AreaId>,
    pub atlas_id: Option<AtlasId>,
    /// When it was made.
    pub created_at: i64,
    pub grantor_nickname: Option<String>,
    pub owner_nickname: Option<String>,
}

/// What a grant covers: an area before an atlas.
pub open spec fn grant_scope(grant: ShareGrant) -> Option<ScopeTarget> {
    match (grant.area_id, grant.atlas_id) {
        (Some(area_id), _) => Some(ScopeTarget::Area(area_id)),
        (None, Some(atlas_id)) => Some(ScopeTarget::Atlas(atlas_id)),
        (None, None) => None,
    }
}

/// Who made a grant.
pub open spec fn grantor(grant: ShareGrant) -> SharerView {
    Sharer {
        user_id: grant.grantor_id,
        nickname: text::opt_text(grant.grantor_nickname),
        owner_nickname: text::opt_text(grant.owner_nickname),
    }
}

/// Whether a grant is the earliest of those that cover the same; of two made at
/// the same time, the one listed first is.
pub open spec fn is_earliest(grants: Seq<ShareGrant>, i: int) -> bool {
    &&& 0 <= i < grants.len()
    &&& grant_scope(grants[i]) is Some
    &&& forall|j: int|
        0 <= j < grants.len() && grant_scope(#[trigger] grants[j]) == grant_scope(grants[i])
            ==> grants[i].created_at < grants[j].created_at || (grants[i].created_at
            == grants[j].created_at && i <= j)
}

/// Whether a grant is the earliest that covers a scope.
pub open spec fn wins(grants: Seq<ShareGrant>, scope: ScopeTarget, i: int) -> bool {
    is_earliest(grants, i) && grant_scope(grants[i]) == Some(scope)
}

/// The sharer of a scope: who made the earliest grant that covers it.
pub open spec fn scope_sharer(grants: Seq<ShareGrant>, scope: ScopeTarget) -> Option<SharerView> {
    if exists|i: int| wins(grants, scope, i) {
        Some(grantor(grants[choose|i: int| wins(grants, scope, i)]))
    } else {
        None
    }
}

/// Only one grant wins a scope.
proof fn lemma_one_wins(grants: Seq<ShareGrant>, scope: ScopeTarget, i: int)
    requires
        wins(grants, scope, i),
    ensures
        scope_sharer(grants, scope) == Some(grantor(grants[i])),
{
    let k = choose|k: int| wins(grants, scope, k);
    assert(wins(grants, scope, k));
    assert(grant_scope(grants[k]) == grant_scope(grants[i]));
    assert(k == i);
}

/// When any of the first `n` grants covers a scope, one of them is the earliest
/// of those.
proof fn lemma_earliest_of(grants: Seq<ShareGrant>, scope: ScopeTarget, n: int) -> (best: int)
    requires
        0 <= n <= grants.len(),
        exists|i: int| 0 <= i < n && grant_scope(#[trigger] grants[i]) == Some(scope),
    ensures
        0 <= best < n,
        grant_scope(grants[best]) == Some(scope),
        forall|j: int|
            0 <= j < n && grant_scope(#[trigger] grants[j]) == Some(scope)
                ==> grants[best].created_at < grants[j].created_at || (grants[best].created_at
                == grants[j].created_at && best <= j),
    decreases n,
{
    if exists|i: int| 0 <= i < n - 1 && grant_scope(#[trigger] grants[i]) == Some(scope) {
        let best = lemma_earliest_of(grants, scope, n - 1);
        if grant_scope(grants[n - 1]) == Some(scope) && grants[n - 1].created_at
            < grants[best].created_at {
            n - 1
        } else {
            best
        }
    } else {
        n - 1
    }
}

/// The earliest of the grants that cover a scope decides who shared it, in
/// whatever order the grants are listed.
pub proof fn law_the_earliest_grant_wins(grants: Seq<ShareGrant>, scope: ScopeTarget, i: int)
    requires
        0 <= i < grants.len(),
        grant_scope(grants[i]) == Some(scope),
        forall|j: int|
            0 <= j < grants.len() && j != i && grant_scope(#[trigger] grants[j]) == Some(scope)
                ==> grants[i].created_at < grants[j].created_at,
    ensures
        scope_sharer(grants, scope) == Some(grantor(grants[i])),
{
    assert(wins(grants, scope, i));
    lemma_one_wins(grants, scope, i);
}

/// A scope has a sharer if and only if a grant covers it.
pub proof fn law_what_a_grant_covers_has_a_sharer(grants: Seq<ShareGrant>, scope: ScopeTarget)
    ensures
        scope_sharer(grants, scope) is Some <==> exists|i: int|
            0 <= i < grants.len() && grant_scope(#[trigger] grants[i]) == Some(scope),
{
    if exists|i: int| 0 <= i < grants.len() && grant_scope(#[trigger] grants[i]) == Some(scope) {
        let best = lemma_earliest_of(grants, scope, grants.len() as int);
        assert(wins(grants, scope, best));
    }
    if exists|i: int| wins(grants, scope, i) {
        let i = choose|i: int| wins(grants, scope, i);
        assert(grant_scope(grants[i]) == Some(scope));
    }
}

/// One entry of the index.
pub struct SharedScope {
    pub scope: ScopeTarget,
    pub sharer: Sharer,
}

/// The sharers of scopes.
pub struct SharerIndex {
    pub entries: Vec<SharedScope>,
}

/// The sharer that entries give for a scope.
pub open spec fn entry_for(entries: Seq<SharedScope>, scope: ScopeTarget) -> Option<SharerView> {
    match list::first(entries, |entry: SharedScope| entry.scope == scope) {
        Some(entry) => Some(entry.sharer@),
        None => None,
    }
}

impl SharerIndex {
    /// The sharer of a scope.
    pub open spec fn lookup(self, scope: ScopeTarget) -> Option<SharerView> {
        entry_for(self.entries@, scope)
    }

    /// The sharer of an area: by a grant of the area, else by one of its atlas.
    pub open spec fn sharer(self, area_id: AreaId, atlas_id: Option<AtlasId>) -> Option<SharerView> {
        match self.lookup(ScopeTarget::Area(area_id)) {
            Some(sharer) => Some(sharer),
            None => match atlas_id {
                Some(atlas_id) => self.lookup(ScopeTarget::Atlas(atlas_id)),
                None => None,
            },
        }
    }
}

/// What a grant covers.
fn scope_of(grant: &ShareGrant) -> (scope: Option<ScopeTarget>)
    ensures
        scope == grant_scope(*grant),
{
    match (grant.area_id, grant.atlas_id) {
        (Some(area_id), _) => Some(ScopeTarget::Area(area_id)),
        (None, Some(atlas_id)) => Some(ScopeTarget::Atlas(atlas_id)),
        (None, None) => None,
    }
}

/// Whether two optional scopes are the same.
fn same_scope(a: Option<ScopeTarget>, b: ScopeTarget) -> (same: bool)
    ensures
        same == (a == Some(b)),
{
    match a {
        Some(a) => a == b,
        None => false,
    }
}

/// Whether a grant is the earliest of those that cover the same.
fn earliest(grants: &Vec<ShareGrant>, i: usize, scope: ScopeTarget) -> (first: bool)
    requires
        i < grants.len(),
        grant_scope(grants@[i as int]) == Some(scope),
    ensures
        first == is_earliest(grants@, i as int),
{
    for j in 0..grants.len()
        invariant
            i < grants.len(),
            grant_scope(grants@[i as int]) == Some(scope),
            forall|k: int|
                0 <= k < j && grant_scope(#[trigger] grants@[k]) == Some(scope)
                    ==> grants@[i as int].created_at < grants@[k].created_at || (
                grants@[i as int].created_at == grants@[k].created_at && i <= k),
    {
        if same_scope(scope_of(&grants[j]), scope) {
            let mine: i64 = grants[i].created_at;
            let theirs: i64 = grants[j].created_at;
            if !(mine < theirs || (mine == theirs && i <= j)) {
                return false;
            }
        }
    }
    true
}

/// After one more entry, a scope without one has that of the new entry.
proof fn lemma_entry_pushed(entries: Seq<SharedScope>, added: SharedScope, scope: ScopeTarget)
    ensures
        entry_for(entries.push(added), scope) == match entry_for(entries, scope) {
            Some(sharer) => Some(sharer),
            None => if added.scope == scope {
                Some(added.sharer@)
            } else {
                None
            },
        },
{
    let p = |entry: SharedScope| entry.scope == scope;
    let more = entries.push(added);
    if exists|i: int| list::is_first(entries, p, i) {
        let i = choose|i: int| list::is_first(entries, p, i);
        list::lemma_first(entries, p, i);
        assert(more[i] == entries[i]);
        assert forall|k: int| 0 <= k < i implies !p(#[trigger] more[k]) by {
            assert(more[k] == entries[k]);
        }
        list::lemma_first(more, p, i);
    } else {
        if exists|k: int| 0 <= k < entries.len() && p(#[trigger] entries[k]) {
            let k = choose|k: int| 0 <= k < entries.len() && p(#[trigger] entries[k]);
            list::lemma_first_exists(entries, p);
            assert(false);
        }
        let n = entries.len() as int;
        assert(more[n] == added);
        assert forall|k: int| 0 <= k < n implies !p(#[trigger] more[k]) by {
            assert(more[k] == entries[k]);
            assert(!p(entries[k]));
        }
        if added.scope == scope {
            list::lemma_first(more, p, n);
        } else {
            assert forall|k: int| !list::is_first(more, p, k) by {
                if 0 <= k < more.len() {
                    assert(!p(more[k]));
                }
            }
        }
    }
}

impl SharerIndex {
    /// The index of received grants. When several cover the same, the earliest
    /// counts.
    pub fn build(grants: &Vec<ShareGrant>) -> (index: Self)
        ensures
            forall|scope: ScopeTarget| #[trigger]
                index.lookup(scope) == scope_sharer(grants@, scope),
    {
        let mut entries: Vec<SharedScope> = Vec::new();
        assert forall|scope: ScopeTarget| #[trigger] entry_for(entries@, scope) is None by {
            let p = |entry: SharedScope| entry.scope == scope;
            assert(!exists|k: int| list::is_first(entries@, p, k));
        }
        for i in 0..grants.len()
            invariant
                forall|scope: ScopeTarget, k: int|
                    0 <= k < i && #[trigger] wins(grants@, scope, k) ==> entry_for(entries@, scope)
                        == Some(grantor(grants@[k])),
                forall|scope: ScopeTarget| #[trigger]
                    entry_for(entries@, scope) is Some ==> exists|k: int|
                        0 <= k < i && wins(grants@, scope, k),
        {
            let ghost before = entries@;
            let grant = &grants[i];
            if let Some(scope) = scope_of(grant) {
                if earliest(grants, i, scope) {
                    let added = SharedScope {
                        scope,
                        sharer: Sharer {
                            user_id: grant.grantor_id,
                            nickname: clone_opt(&grant.grantor_nickname),
                            owner_nickname: clone_opt(&grant.owner_nickname),
                        },
                    };
                    entries.push(added);
                    proof {
                        assert(wins(grants@, scope, i as int));
                        assert forall|other: ScopeTarget, k: int|
                            0 <= k < i + 1 && #[trigger] wins(
                                grants@,
                                other,
                                k,
                            ) implies entry_for(entries@, other) == Some(grantor(grants@[k])) by {
                            lemma_entry_pushed(before, added, other);
                            if k == i {
                                if entry_for(before, other) is Some {
                                    let m = choose|m: int| 0 <= m < i && wins(grants@, other, m);
                                    lemma_one_wins(grants@, other, m);
                                    assert(grant_scope(grants@[m]) == grant_scope(grants@[k]));
                                    assert(false);
                                }
                            }
                        }
                        assert forall|other: ScopeTarget| #[trigger]
                            entry_for(entries@, other) is Some implies exists|k: int|
                            0 <= k < i + 1 && wins(grants@, other, k) by {
                            lemma_entry_pushed(before, added, other);
                            if entry_for(before, other) is Some {
                                let m = choose|m: int| 0 <= m < i && wins(grants@, other, m);
                                assert(0 <= m < i + 1 && wins(grants@, other, m));
                            } else {
                                assert(wins(grants@, other, i as int));
                            }
                        }
                    }
                } else {
                    proof {
                        assert forall|other: ScopeTarget| !wins(grants@, other, i as int) by {}
                    }
                }
            }
        }
        let index = SharerIndex { entries };
        proof {
            assert forall|scope: ScopeTarget| #[trigger]
                index.lookup(scope) == scope_sharer(grants@, scope) by {
                if exists|i: int| wins(grants@, scope, i) {
                    let i = choose|i: int| wins(grants@, scope, i);
                    lemma_one_wins(grants@, scope, i);
                }
            }
        }
        index
    }

    fn find(&self, scope: ScopeTarget) -> (found: Option<&Sharer>)
        ensures
            match found {
                Some(sharer) => self.lookup(scope) == Some(sharer@),
                None => self.lookup(scope) is None,
            },
    {
        let ghost p = |entry: SharedScope| entry.scope == scope;
        for i in 0..self.entries.len()
            invariant
                p == (|entry: SharedScope| entry.scope == scope),
                forall|k: int| 0 <= k < i ==> !p(#[trigger] self.entries@[k]),
        {
            if self.entries[i].scope == scope {
                proof {
                    list::lemma_first(self.entries@, p, i as int);
                }
                return Some(&self.entries[i].sharer);
            }
        }
        None
    }

    /// The sharer of an area: a grant of the area itself comes before one of its
    /// atlas.
    pub fn sharer_for(&self, area_id: AreaId, atlas_id: Option<AtlasId>) -> (found: Option<&Sharer>)
        ensures
            match found {
                Some(sharer) => self.sharer(area_id, atlas_id) == Some(sharer@),
                None => self.sharer(area_id, atlas_id) is None,
            },
    {
        match self.find(ScopeTarget::Area(area_id)) {
            Some(sharer) => Some(sharer),
            None => match atlas_id {
                Some(atlas_id) => self.find(ScopeTarget::Atlas(atlas_id)),
                None => None,
            },
        }
    }
}

/// A grant of an area comes before one of its atlas.
pub proof fn law_a_grant_of_the_area_beats_one_of_its_atlas(
    index: SharerIndex,
    area_id: AreaId,
    atlas_id: Option<AtlasId>,
)
    requires
        index.lookup(ScopeTarget::Area(area_id)) is Some,
    ensures
        index.sharer(area_id, atlas_id) == index.lookup(ScopeTarget::Area(area_id)),
{
}

// ===== Attribution =====

/// What an area tells of its owner.
pub struct OwnerInfo {
    pub area_id: AreaId,
    pub atlas_id: Option<AtlasId>,
    pub owner_id: Option<UserId>,
    pub owner_nickname: Option<String>,
}

/// A nickname, or what stands for a missing one.
pub open spec fn label(nickname: Option<Seq<char>>) -> Seq<char> {
    match nickname {
        Some(nickname) => nickname,
        None => "a friend"@,
    }
}

/// The owner's nickname where the sharer is not the owner: as the area tells it,
/// else as the grant does.
pub open spec fn reshared_owner(owner: OwnerInfo, sharer: SharerView) -> Option<Seq<char>> {
    if owner.owner_id is Some && owner.owner_id->0 != sharer.user_id {
        Some(
            label(
                match text::opt_text(owner.owner_nickname) {
                    Some(nickname) => Some(nickname),
                    None => sharer.owner_nickname,
                },
            ),
        )
    } else {
        None
    }
}

/// The line of [`sharer_attribution`].
pub open spec fn attribution(owner: OwnerInfo, sharer: Option<SharerView>) -> Seq<char> {
    match sharer {
        Some(sharer) => match reshared_owner(owner, sharer) {
            Some(named) => "Shared by "@ + label(sharer.nickname) + " \u{b7} owned by "@ + named,
            None => "Shared by "@ + label(sharer.nickname),
        },
        None => "Shared by "@ + label(text::opt_text(owner.owner_nickname)),
    }
}

/// A nickname, or what stands for a missing one.
pub(crate) fn label_of(nickname: &Option<String>) -> (text: String)
    ensures
        text@ == label(text::opt_text(*nickname)),
{
    match nickname {
        Some(nickname) => nickname.clone(),
        None => "a friend".to_owned(),
    }
}

/// The owner's nickname where the sharer is not the owner.
pub(crate) fn owner_label(owner: &OwnerInfo, sharer: &Sharer) -> (text: Option<String>)
    ensures
        text::opt_text(text) == reshared_owner(*owner, sharer@),
{
    let differs = match owner.owner_id {
        Some(owner_id) => owner_id != sharer.user_id,
        None => false,
    };
    if differs {
        Some(
            match &owner.owner_nickname {
                Some(nickname) => nickname.clone(),
                None => label_of(&sharer.owner_nickname),
            },
        )
    } else {
        None
    }
}

/// Who shared an area, in one line; names the owner too where that is another.
/// `None` stands for an area that is not cached.
pub fn sharer_attribution(owner: &Option<OwnerInfo>, sharers: &Option<SharerIndex>) -> (line: String)
    ensures
        line@ == match *owner {
            None => "Shared by a friend"@,
            Some(owner) => attribution(
                owner,
                match *sharers {
                    Some(index) => index.sharer(owner.area_id, owner.atlas_id),
                    None => None,
                },
            ),
        },
{
    let owner = match owner {
        Some(owner) => owner,
        None => {
            return "Shared by a friend".to_owned();
        },
    };
    let resolved = match sharers {
        Some(index) => index.sharer_for(owner.area_id, owner.atlas_id),
        None => None,
    };
    match resolved {
        Some(sharer) => {
            let name = label_of(&sharer.nickname);
            let start = join2("Shared by ", &name);
            match owner_label(owner, sharer) {
                Some(named) => join3(&start, " \u{b7} owned by ", &named),
                None => start,
            }
        },
        None => {
            let name = label_of(&owner.owner_nickname);
            join2("Shared by ", &name)
        },
    }
}

} // verus!
