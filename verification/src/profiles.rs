//! Named connection presets and which one is active. The GUI keeps one
//! store, persisted as a single JSON document; the edits to it are here.
use crate::proto::Profile;
use crate::text::{decimal, push_char, push_decimal, str_eq};
use vstd::prelude::*;

verus! {

/// Every profile the user has, and the id of the active one.
#[derive(Clone, Debug)]
pub struct Store {
    pub profiles: Vec<Profile>,
    pub active_id: Option<String>,
}

/// Some profile in `s` has this id.
pub open spec fn holds_id(s: Seq<Profile>, id: Seq<char>) -> bool {
    exists|i: int| 0 <= i < s.len() && #[trigger] s[i].id@ == id
}

/// `i` is the first position in `s` whose profile has this id.
pub open spec fn first_index(s: Seq<Profile>, id: Seq<char>, i: int) -> bool {
    &&& 0 <= i < s.len()
    &&& s[i].id@ == id
    &&& forall|j: int| 0 <= j < i ==> #[trigger] s[j].id@ != id
}

/// The first position whose profile has this id (meaningful when
/// [`holds_id`] holds).
pub open spec fn position(s: Seq<Profile>, id: Seq<char>) -> int {
    choose|i: int| first_index(s, id, i)
}

/// Whether a profile's id differs from `id`.
pub open spec fn other_id(id: Seq<char>) -> spec_fn(Profile) -> bool {
    |p: Profile| p.id@ != id
}

/// The profiles of `s` whose id is not `id`, in order.
pub open spec fn without_id(s: Seq<Profile>, id: Seq<char>) -> Seq<Profile> {
    s.filter(other_id(id))
}

proof fn lemma_position(s: Seq<Profile>, id: Seq<char>, i: int)
    requires
        first_index(s, id, i),
    ensures
        position(s, id) == i,
        holds_id(s, id),
{
    let k = position(s, id);
    assert(first_index(s, id, k));
    if k < i {
        assert(s[k].id@ != id);
    } else if i < k {
        assert(s[i].id@ != id);
    }
}

/// Finds the first profile with this id.
fn find(s: &Vec<Profile>, id: &str) -> (r: Option<usize>)
    ensures
        match r {
            Some(i) => first_index(s@, id@, i as int),
            None => !holds_id(s@, id@),
        },
{
    let mut i: usize = 0;
    while i < s.len()
        invariant
            i <= s@.len(),
            forall|j: int| 0 <= j < i ==> #[trigger] s@[j].id@ != id@,
        decreases s@.len() - i,
    {
        if str_eq(s[i].id.as_str(), id) {
            return Some(i);
        }
        i = i + 1;
    }
    None
}

/// Replaces the profile with the same id, or appends it if there is none.
pub fn upsert(store: &mut Store, profile: Profile)
    ensures
        final(store).active_id == old(store).active_id,
        final(store).profiles@ == if holds_id(old(store).profiles@, profile.id@) {
            old(store).profiles@.update(position(old(store).profiles@, profile.id@), profile)
        } else {
            old(store).profiles@.push(profile)
        },
{
    match find(&store.profiles, profile.id.as_str()) {
        Some(i) => {
            proof {
                lemma_position(store.profiles@, profile.id@, i as int);
            }
            store.profiles.set(i, profile);
        },
        None => {
            store.profiles.push(profile);
        },
    }
}

/// Removes every profile with this id; if the active one went, the first
/// survivor becomes active. The last profile cannot be deleted.
pub fn delete(store: &mut Store, id: &str) -> (r: Result<(), String>)
    ensures
        old(store).profiles@.len() <= 1 ==> {
            &&& r matches Err(msg) && msg@ == "The last profile cannot be deleted."@
            &&& final(store).profiles@ == old(store).profiles@
            &&& final(store).active_id == old(store).active_id
        },
        old(store).profiles@.len() > 1 ==> {
            &&& r is Ok
            &&& final(store).profiles@ == without_id(old(store).profiles@, id@)
            &&& final(store).active_id == if old(store).active_id matches Some(a) && a@ == id@ {
                if final(store).profiles@.len() > 0 {
                    Some(final(store).profiles@[0].id)
                } else {
                    None
                }
            } else {
                old(store).active_id
            }
        },
{
    if store.profiles.len() <= 1 {
        return Err(String::from_str("The last profile cannot be deleted."));
    }
    let ghost s0 = store.profiles@;
    let ghost keep = other_id(id@);
    let mut i: usize = 0;
    let ghost mut j: int = 0;
    assert(s0.take(0).filter(keep) =~= Seq::<Profile>::empty());
    assert(s0.skip(0) =~= s0);
    while i < store.profiles.len()
        invariant
            0 <= j <= s0.len(),
            keep == other_id(id@),
            i == s0.take(j).filter(keep).len(),
            store.profiles@ == s0.take(j).filter(keep) + s0.skip(j),
            store.active_id == old(store).active_id,
            s0 == old(store).profiles@,
        decreases s0.len() - j,
    {
        let ghost f0 = s0.take(j).filter(keep);
        assert(store.profiles@[i as int] == s0[j]);
        proof {
            s0.take(j).lemma_filter_push(s0[j], keep);
        }
        assert(s0.take(j + 1) =~= s0.take(j).push(s0[j]));
        assert(s0.take(j + 1).filter(keep) == if keep(s0[j]) {
            f0.push(s0[j])
        } else {
            f0
        });
        if str_eq(store.profiles[i].id.as_str(), id) {
            store.profiles.remove(i);
            assert(store.profiles@ =~= s0.take(j + 1).filter(keep) + s0.skip(j + 1));
        } else {
            assert(store.profiles@ =~= s0.take(j + 1).filter(keep) + s0.skip(j + 1));
            i = i + 1;
        }
        proof {
            j = j + 1;
        }
    }
    proof {
        if j < s0.len() {
            assert(store.profiles@.len() > i);
        }
        assert(s0.take(j) =~= s0);
        assert(s0.skip(j) =~= Seq::<Profile>::empty());
    }
    assert(store.profiles@ =~= without_id(s0, id@));
    let was_active = match &store.active_id {
        Some(a) => str_eq(a.as_str(), id),
        None => false,
    };
    if was_active {
        store.active_id = if store.profiles.len() > 0 {
            Some(store.profiles[0].id.clone())
        } else {
            None
        };
    }
    Ok(())
}

/// The active profile, if the active id names one.
pub fn active(store: &Store) -> (r: Option<&Profile>)
    ensures
        match store.active_id {
            Some(a) => if holds_id(store.profiles@, a@) {
                r == Some(&store.profiles@[position(store.profiles@, a@)])
            } else {
                r is None
            },
            None => r is None,
        },
{
    match &store.active_id {
        Some(a) => match find(&store.profiles, a.as_str()) {
            Some(i) => {
                proof {
                    lemma_position(store.profiles@, a@, i as int);
                }
                Some(&store.profiles[i])
            },
            None => None,
        },
        None => None,
    }
}

/// The profile with this id, for starting it; an unknown id is refused.
pub fn find_profile<'a>(store: &'a Store, id: &str) -> (r: Result<&'a Profile, String>)
    ensures
        holds_id(store.profiles@, id@) ==> r == Ok::<&Profile, String>(
            &store.profiles@[position(store.profiles@, id@)],
        ),
        !holds_id(store.profiles@, id@) ==> (r matches Err(msg) && msg@ == "no profile with id '"@
            + id@ + "'"@),
{
    match find(&store.profiles, id) {
        Some(i) => {
            proof {
                lemma_position(store.profiles@, id@, i as int);
            }
            Ok(&store.profiles[i])
        },
        None => {
            let mut msg = String::from_str("no profile with id '");
            msg.append(id);
            push_char(&mut msg, '\'');
            proof {
                reveal_strlit("'");
            }
            assert(msg@ =~= "no profile with id '"@ + id@ + "'"@);
            Err(msg)
        },
    }
}

/// Makes the profile with this id active; an unknown id is refused and
/// changes nothing.
pub fn set_active(store: &mut Store, id: &str) -> (r: Result<(), String>)
    ensures
        !holds_id(old(store).profiles@, id@) ==> {
            &&& r matches Err(msg) && msg@ == "no profile with id '"@ + id@ + "'"@
            &&& final(store).profiles@ == old(store).profiles@
            &&& final(store).active_id == old(store).active_id
        },
        holds_id(old(store).profiles@, id@) ==> {
            &&& r is Ok
            &&& final(store).profiles@ == old(store).profiles@
            &&& final(store).active_id matches Some(a) && a@ == id@
        },
{
    if find(&store.profiles, id).is_none() {
        let mut msg = String::from_str("no profile with id '");
        msg.append(id);
        push_char(&mut msg, '\'');
        proof {
            reveal_strlit("'");
        }
        assert(msg@ =~= "no profile with id '"@ + id@ + "'"@);
        return Err(msg);
    }
    store.active_id = Some(String::from_str(id));
    Ok(())
}

/// A profile id made from a timestamp in nanoseconds: `p` and the number.
/// Profiles are created by hand at human speed, so two cannot share one.
pub fn profile_id(nanos: u128) -> (r: String)
    ensures
        r@ == seq!['p'] + decimal(nanos as nat),
{
    let mut s = String::new();
    push_char(&mut s, 'p');
    push_decimal(&mut s, nanos);
    assert(s@ =~= seq!['p'] + decimal(nanos as nat));
    s
}

/// The profile a fresh install starts with, under the given id.
pub fn default_profile(id: String) -> (p: Profile)
    ensures
        p.id == id,
        p.name@ == "Default"@,
        p.listen_host@ == "127.0.0.1"@,
        p.listen_port == 40443,
        p.connect_ip@ == "103.160.204.34"@,
        p.connect_port == 443,
        p.fake_sni@ == "chatgpt.com"@,
{
    Profile {
        id,
        name: String::from_str("Default"),
        listen_host: String::from_str("127.0.0.1"),
        listen_port: 40443,
        connect_ip: String::from_str("103.160.204.34"),
        connect_port: 443,
        fake_sni: String::from_str("chatgpt.com"),
    }
}

/// A store holding just this profile, active.
pub fn store_of(profile: Profile) -> (s: Store)
    ensures
        s.profiles@ == seq![profile],
        s.active_id == Some(profile.id),
{
    let id = profile.id.clone();
    let mut profiles: Vec<Profile> = Vec::new();
    profiles.push(profile);
    assert(profiles@ =~= seq![profile]);
    Store { profiles, active_id: Some(id) }
}

/// No two profiles in `s` share an id.
pub open spec fn ids_unique(s: Seq<Profile>) -> bool {
    forall|i: int, j: int| 0 <= i < j < s.len() ==> #[trigger] s[i].id@ != #[trigger] s[j].id@
}

/// Upserting keeps ids unique, and afterwards the profile is the one found
/// under its id.
pub proof fn lemma_upsert_keeps_ids_unique(s: Seq<Profile>, p: Profile)
    requires
        ids_unique(s),
    ensures
        ({
            let t = if holds_id(s, p.id@) {
                s.update(position(s, p.id@), p)
            } else {
                s.push(p)
            };
            &&& ids_unique(t)
            &&& holds_id(t, p.id@)
            &&& t[position(t, p.id@)] == p
        }),
{
    if holds_id(s, p.id@) {
        let k = position(s, p.id@);
        let w = choose|i: int| 0 <= i < s.len() && #[trigger] s[i].id@ == p.id@;
        assert(first_index(s, p.id@, w)) by {
            assert forall|j: int| 0 <= j < w implies #[trigger] s[j].id@ != p.id@ by {
                if s[j].id@ == p.id@ {
                    assert(s[j].id@ != s[w].id@);
                }
            }
        }
        lemma_position(s, p.id@, w);
        let t = s.update(k, p);
        assert forall|i: int, j: int| 0 <= i < j < t.len() implies #[trigger] t[i].id@
            != #[trigger] t[j].id@ by {
            if i == k {
                assert(s[j].id@ != s[k].id@);
            } else if j == k {
                assert(s[i].id@ != s[k].id@);
            } else {
                assert(s[i].id@ != s[j].id@);
            }
        }
        assert forall|j: int| 0 <= j < k implies #[trigger] t[j].id@ != p.id@ by {
            assert(s[j].id@ != s[k].id@);
        }
        assert(first_index(t, p.id@, k));
        lemma_position(t, p.id@, k);
    } else {
        let t = s.push(p);
        let k = s.len() as int;
        assert forall|i: int, j: int| 0 <= i < j < t.len() implies #[trigger] t[i].id@
            != #[trigger] t[j].id@ by {
            if j == k {
                assert(!(0 <= i < s.len() && s[i].id@ == p.id@));
            } else {
                assert(s[i].id@ != s[j].id@);
            }
        }
        assert forall|j: int| 0 <= j < k implies #[trigger] t[j].id@ != p.id@ by {
            assert(!(0 <= j < s.len() && s[j].id@ == p.id@));
        }
        assert(first_index(t, p.id@, k));
        lemma_position(t, p.id@, k);
    }
}

/// With unique ids, deleting from a store of two or more profiles removes
/// exactly one when the id is present and none otherwise, so at least one
/// profile always survives.
pub proof fn lemma_delete_leaves_a_profile(s: Seq<Profile>, id: Seq<char>)
    requires
        ids_unique(s),
        s.len() > 1,
    ensures
        without_id(s, id).len() >= s.len() - 1,
        without_id(s, id).len() >= 1,
{
    lemma_without_id_len(s, id);
}

proof fn lemma_without_id_len(s: Seq<Profile>, id: Seq<char>)
    requires
        ids_unique(s),
    ensures
        without_id(s, id).len() >= s.len() - 1,
        !holds_id(s, id) ==> without_id(s, id).len() == s.len(),
    decreases s.len(),
{
    if s.len() == 0 {
        reveal(Seq::filter);
    } else {
        let r = s.drop_last();
        assert(ids_unique(r)) by {
            assert forall|i: int, j: int| 0 <= i < j < r.len() implies #[trigger] r[i].id@
                != #[trigger] r[j].id@ by {
                assert(s[i].id@ != s[j].id@);
            }
        }
        lemma_without_id_len(r, id);
        assert(s =~= r.push(s.last()));
        r.lemma_filter_push(s.last(), other_id(id));
        if s.last().id@ == id {
            assert(!holds_id(r, id)) by {
                if holds_id(r, id) {
                    let w = choose|i: int| 0 <= i < r.len() && #[trigger] r[i].id@ == id;
                    assert(s[w].id@ != s[s.len() - 1].id@);
                }
            }
        } else {
            assert(!holds_id(s, id) ==> !holds_id(r, id)) by {
                if holds_id(r, id) {
                    let w = choose|i: int| 0 <= i < r.len() && #[trigger] r[i].id@ == id;
                    assert(s[w].id@ == id);
                }
            }
        }
    }
}

} // verus!
