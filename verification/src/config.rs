//! Profiles: named Jira and Confluence accounts, one of them active.
use crate::error::{AppError, ErrorV};
use crate::text::{char_vec, str_equal};
use vstd::prelude::*;
use vstd::string::*;

verus! {

/// The address and credentials of one service.
pub struct ServiceConfig {
    pub base_url: String,
    pub email: String,
    pub api_token: String,
}

/// A profile: the Jira and the Confluence account of one Atlassian site.
pub struct Profile {
    pub jira: ServiceConfig,
    pub confluence: ServiceConfig,
}

/// The model of a service's settings.
pub struct ServiceV {
    pub base_url: Seq<char>,
    pub email: Seq<char>,
    pub api_token: Seq<char>,
}

/// The model of a profile.
pub struct ProfileV {
    pub jira: ServiceV,
    pub confluence: ServiceV,
}

impl View for ServiceConfig {
    type V = ServiceV;

    open spec fn view(&self) -> ServiceV {
        ServiceV { base_url: self.base_url@, email: self.email@, api_token: self.api_token@ }
    }
}

impl View for Profile {
    type V = ProfileV;

    open spec fn view(&self) -> ProfileV {
        ProfileV { jira: self.jira@, confluence: self.confluence@ }
    }
}

impl ServiceConfig {
    /// A copy of these settings.
    pub fn copy(&self) -> (r: ServiceConfig)
        ensures
            r@ == self@,
    {
        ServiceConfig { base_url: self.base_url.clone(), email: self.email.clone(), api_token: self.api_token.clone() }
    }
}

impl Profile {
    /// A copy of this profile.
    pub fn copy(&self) -> (r: Profile)
        ensures
            r@ == self@,
    {
        Profile { jira: self.jira.copy(), confluence: self.confluence.copy() }
    }
}

/// String order: code point by code point, a proper prefix first (the order of `String`,
/// whose UTF-8 bytes compare as the code points do).
pub open spec fn str_lt(a: Seq<char>, b: Seq<char>) -> bool
    decreases a.len(),
{
    if b.len() == 0 {
        false
    } else if a.len() == 0 {
        true
    } else if a[0] != b[0] {
        a[0] < b[0]
    } else {
        str_lt(a.drop_first(), b.drop_first())
    }
}

/// The string order is transitive.
pub proof fn lemma_str_lt_transitive(a: Seq<char>, b: Seq<char>, c: Seq<char>)
    requires
        str_lt(a, b),
        str_lt(b, c),
    ensures
        str_lt(a, c),
    decreases a.len(),
{
    if a.len() > 0 && b.len() > 0 && c.len() > 0 && a[0] == b[0] && b[0] == c[0] {
        lemma_str_lt_transitive(a.drop_first(), b.drop_first(), c.drop_first());
    }
}

/// The string order is total and strict.
pub proof fn lemma_str_lt_total(a: Seq<char>, b: Seq<char>)
    ensures
        a == b || str_lt(a, b) || str_lt(b, a),
        !(str_lt(a, b) && str_lt(b, a)),
        !str_lt(a, a),
    decreases a.len(),
{
    if a.len() > 0 && b.len() > 0 && a[0] == b[0] {
        lemma_str_lt_total(a.drop_first(), b.drop_first());
        if a.drop_first() == b.drop_first() {
            assert forall|k: int| 0 <= k < a.len() implies a[k] == b[k] by {
                if k > 0 {
                    assert(a[k] == a.drop_first()[k - 1]);
                    assert(b[k] == b.drop_first()[k - 1]);
                }
            }
            assert(a =~= b);
        }
    }
    if a.len() > 0 {
        lemma_str_lt_total(a.drop_first(), a.drop_first());
    }
    if a.len() == 0 && b.len() == 0 {
        assert(a =~= b);
    }
}

/// Whether `a` comes before `b` in string order.
pub fn str_less(a: &str, b: &str) -> (r: bool)
    ensures
        r == str_lt(a@, b@),
{
    let x = char_vec(a);
    let y = char_vec(b);
    let mut i: usize = 0;
    assert(x@.skip(0) =~= x@);
    assert(y@.skip(0) =~= y@);
    while i < x.len() && i < y.len() && x[i] == y[i]
        invariant
            i <= x.len(),
            i <= y.len(),
            x@ == a@,
            y@ == b@,
            str_lt(a@, b@) == str_lt(x@.skip(i as int), y@.skip(i as int)),
        decreases x.len() - i,
    {
        assert(x@.skip(i as int).drop_first() =~= x@.skip(i + 1));
        assert(y@.skip(i as int).drop_first() =~= y@.skip(i + 1));
        i = i + 1;
    }
    if i == y.len() {
        false
    } else if i == x.len() {
        true
    } else {
        assert(x@.skip(i as int)[0] == x@[i as int]);
        assert(y@.skip(i as int)[0] == y@[i as int]);
        x[i] < y[i]
    }
}

/// The model of the settings: the active profile's name and the profiles, each with its
/// name, in name order.
pub struct ConfigV {
    pub active: Seq<char>,
    pub profiles: Seq<(Seq<char>, ProfileV)>,
}

/// The settings: the profiles by name, and the name of the active one (empty when none).
pub struct Config {
    pub active_profile: String,
    /// The profiles with their names; the names strictly increase.
    pub profiles: Vec<(String, Profile)>,
}

/// Whether the names strictly increase (so none occurs twice).
pub open spec fn sorted_names(ps: Seq<(Seq<char>, ProfileV)>) -> bool {
    forall|i: int, j: int| 0 <= i < j < ps.len() ==> str_lt(#[trigger] ps[i].0, #[trigger] ps[j].0)
}

/// The profiles as a map from name to profile.
pub open spec fn profile_map(ps: Seq<(Seq<char>, ProfileV)>) -> Map<Seq<char>, ProfileV>
    decreases ps.len(),
{
    if ps.len() == 0 {
        Map::empty()
    } else {
        profile_map(ps.drop_last()).insert(ps.last().0, ps.last().1)
    }
}

impl View for Config {
    type V = ConfigV;

    open spec fn view(&self) -> ConfigV {
        ConfigV {
            active: self.active_profile@,
            profiles: self.profiles@.map_values(|e: (String, Profile)| (e.0@, e.1@)),
        }
    }
}

impl ConfigV {
    /// Whether the profiles are in name order with no name twice.
    pub open spec fn wf(self) -> bool {
        sorted_names(self.profiles)
    }

    /// The profiles by name.
    pub open spec fn map(self) -> Map<Seq<char>, ProfileV> {
        profile_map(self.profiles)
    }
}

/// The message when the active profile is not configured.
pub open spec fn no_active_message(cfg: ConfigV) -> ErrorV {
    if cfg.profiles.len() == 0 {
        ErrorV::Config("No profiles configured. Run 'acil login' first."@)
    } else {
        ErrorV::Config("Active profile '"@ + cfg.active
            + "' not found. Run 'acil profile list' to see available profiles."@)
    }
}

/// The message when a named profile does not exist.
pub open spec fn profile_not_found(name: Seq<char>) -> ErrorV {
    ErrorV::NotFound("Profile '"@ + name + "' not found"@)
}

/// A map of sorted profiles holds exactly their names, with the profile of each.
pub proof fn lemma_profile_map(ps: Seq<(Seq<char>, ProfileV)>)
    requires
        sorted_names(ps),
    ensures
        forall|k: Seq<char>| #[trigger] profile_map(ps).contains_key(k) <==> exists|i: int| 0 <= i < ps.len() && ps[i].0 == k,
        forall|i: int| 0 <= i < ps.len() ==> #[trigger] profile_map(ps)[ps[i].0] == ps[i].1,
        profile_map(ps).dom().finite(),
    decreases ps.len(),
{
    if ps.len() > 0 {
        let q = ps.drop_last();
        assert(sorted_names(q)) by {
            assert forall|i: int, j: int| 0 <= i < j < q.len() implies str_lt(#[trigger] q[i].0, #[trigger] q[j].0) by {
                assert(q[i] == ps[i] && q[j] == ps[j]);
            }
        }
        lemma_profile_map(q);
        assert forall|i: int| 0 <= i < ps.len() implies #[trigger] profile_map(ps)[ps[i].0] == ps[i].1 by {
            if i < ps.len() - 1 {
                assert(q[i] == ps[i]);
                assert(str_lt(ps[i].0, ps[ps.len() - 1].0));
                lemma_str_lt_total(ps[i].0, ps[i].0);
            }
        }
        assert forall|k: Seq<char>| #[trigger] profile_map(ps).contains_key(k) implies exists|i: int| 0 <= i < ps.len() && ps[i].0 == k by {
            if k != ps.last().0 {
                let i = choose|i: int| 0 <= i < q.len() && q[i].0 == k;
                assert(ps[i] == q[i]);
            }
        }
        assert forall|k: Seq<char>| (exists|i: int| 0 <= i < ps.len() && ps[i].0 == k) implies #[trigger] profile_map(ps).contains_key(k) by {
            let i = choose|i: int| 0 <= i < ps.len() && ps[i].0 == k;
            if i < ps.len() - 1 {
                assert(q[i] == ps[i]);
            }
        }
    }
}

impl Config {
    /// Settings with no profile.
    pub fn new() -> (c: Config)
        ensures
            c@.active == Seq::<char>::empty(),
            c@.profiles == Seq::<(Seq<char>, ProfileV)>::empty(),
            c@.wf(),
    {
        let c = Config { active_profile: String::new(), profiles: Vec::new() };
        assert(c@.profiles =~= Seq::<(Seq<char>, ProfileV)>::empty());
        c
    }

    /// The position of the profile named `name`, if there is one.
    fn position(&self, name: &str) -> (r: Option<usize>)
        requires
            self@.wf(),
        ensures
            r matches Some(i) ==> i < self@.profiles.len() && self@.profiles[i as int].0 == name@,
            r is None ==> forall|i: int| 0 <= i < self@.profiles.len() ==> self@.profiles[i].0 != name@,
    {
        let mut i: usize = 0;
        while i < self.profiles.len()
            invariant
                i <= self.profiles.len(),
                forall|j: int| 0 <= j < i ==> self@.profiles[j].0 != name@,
            decreases self.profiles.len() - i,
        {
            if str_equal(self.profiles[i].0.as_str(), name) {
                return Some(i);
            }
            i = i + 1;
        }
        None
    }

    /// The active profile; an error when it is not configured.
    pub fn active_profile(&self) -> (r: Result<&Profile, AppError>)
        requires
            self@.wf(),
        ensures
            match r {
                Ok(p) => self@.map().contains_key(self@.active) && p@ == self@.map()[self@.active],
                Err(e) => !self@.map().contains_key(self@.active) && e@ == no_active_message(self@),
            },
    {
        proof { lemma_profile_map(self@.profiles); }
        match self.position(self.active_profile.as_str()) {
            Some(i) => {
                assert(self@.profiles[i as int] == (self.profiles@[i as int].0@, self.profiles@[i as int].1@));
                Ok(&self.profiles[i].1)
            },
            None => {
                if self.profiles.len() == 0 {
                    Err(AppError::Config("No profiles configured. Run 'acil login' first.".to_owned()))
                } else {
                    let mut m = "Active profile '".to_owned();
                    m.append(self.active_profile.as_str());
                    m.append("' not found. Run 'acil profile list' to see available profiles.");
                    Err(AppError::Config(m))
                }
            },
        }
    }
}

impl ConfigV {
    /// The name of the first profile in name order, or the empty name when there is none.
    pub open spec fn first_name(self) -> Seq<char> {
        if self.profiles.len() == 0 { Seq::empty() } else { self.profiles[0].0 }
    }
}

proof fn lemma_sorted_sub(ps: Seq<(Seq<char>, ProfileV)>, qs: Seq<(Seq<char>, ProfileV)>)
    requires
        sorted_names(ps),
        qs.len() == ps.len(),
        forall|i: int| 0 <= i < ps.len() ==> #[trigger] qs[i].0 == ps[i].0,
    ensures
        sorted_names(qs),
{
    assert forall|i: int, j: int| 0 <= i < j < qs.len() implies str_lt(#[trigger] qs[i].0, #[trigger] qs[j].0) by {
        assert(str_lt(ps[i].0, ps[j].0));
    }
}

impl Config {
    /// Position at which `name` is or would go: every profile before it has a smaller name.
    fn slot(&self, name: &str) -> (p: usize)
        requires
            self@.wf(),
        ensures
            p <= self@.profiles.len(),
            forall|j: int| 0 <= j < p ==> str_lt(#[trigger] self@.profiles[j].0, name@),
            p < self@.profiles.len() ==> !str_lt(self@.profiles[p as int].0, name@),
    {
        let mut i: usize = 0;
        while i < self.profiles.len()
            invariant
                i <= self.profiles.len(),
                forall|j: int| 0 <= j < i ==> str_lt(#[trigger] self@.profiles[j].0, name@),
            decreases self.profiles.len() - i,
        {
            if !str_less(self.profiles[i].0.as_str(), name) {
                return i;
            }
            i = i + 1;
        }
        i
    }

    /// Adds a profile, or replaces the one of that name; the first profile added becomes
    /// the active one.
    pub fn add_profile(&mut self, name: String, profile: Profile)
        requires
            old(self)@.wf(),
        ensures
            final(self)@.wf(),
            final(self)@.map() == old(self)@.map().insert(name@, profile@),
            final(self)@.active == if old(self)@.profiles.len() == 0 { name@ } else { old(self)@.active },
    {
        let is_first = self.profiles.len() == 0;
        let ghost n = name@;
        if is_first {
            self.active_profile = name.clone();
        }
        self.insert_profile(name, profile);
    }

    /// Sets the profile of that name, adding it where it is not there yet.
    pub fn insert_profile(&mut self, name: String, profile: Profile)
        requires
            old(self)@.wf(),
        ensures
            final(self)@.wf(),
            final(self)@.map() == old(self)@.map().insert(name@, profile@),
            final(self)@.active == old(self)@.active,
    {
        let ghost old_ps = self@.profiles;
        let ghost n = name@;
        let ghost pv = profile@;
        proof { lemma_profile_map(old_ps); }
        let p = self.slot(name.as_str());
        if p < self.profiles.len() && str_equal(self.profiles[p].0.as_str(), name.as_str()) {
            self.profiles.set(p, (name, profile));
            let ghost new_ps = self@.profiles;
            assert(new_ps =~= old_ps.update(p as int, (n, pv)));
            proof {
                lemma_sorted_sub(old_ps, new_ps);
                lemma_profile_map(new_ps);
                assert forall|k: Seq<char>| #[trigger] profile_map(new_ps).contains_key(k)
                    <==> profile_map(old_ps).insert(n, pv).contains_key(k) by {
                    if exists|i: int| 0 <= i < old_ps.len() && old_ps[i].0 == k {
                        let i = choose|i: int| 0 <= i < old_ps.len() && old_ps[i].0 == k;
                        assert(new_ps[i].0 == k);
                    }
                    if exists|i: int| 0 <= i < new_ps.len() && new_ps[i].0 == k {
                        let i = choose|i: int| 0 <= i < new_ps.len() && new_ps[i].0 == k;
                        assert(old_ps[i].0 == k);
                    }
                }
                assert forall|k: Seq<char>| #[trigger] profile_map(new_ps).contains_key(k)
                    implies profile_map(new_ps)[k] == profile_map(old_ps).insert(n, pv)[k] by {
                    let i = choose|i: int| 0 <= i < new_ps.len() && new_ps[i].0 == k;
                    assert(profile_map(new_ps)[new_ps[i].0] == new_ps[i].1);
                    if i != p {
                        assert(profile_map(old_ps)[old_ps[i].0] == old_ps[i].1);
                    }
                }
                assert(profile_map(new_ps) =~= profile_map(old_ps).insert(n, pv));
            }
        } else {
            self.profiles.insert(p, (name, profile));
            let ghost new_ps = self@.profiles;
            assert(new_ps =~= old_ps.insert(p as int, (n, pv)));
            proof {
                if p < old_ps.len() {
                    lemma_str_lt_total(old_ps[p as int].0, n);
                }
                assert forall|i: int, j: int| 0 <= i < j < new_ps.len() implies str_lt(#[trigger] new_ps[i].0, #[trigger] new_ps[j].0) by {
                    if j < p {
                        assert(str_lt(old_ps[i].0, old_ps[j].0));
                    } else if j == p {
                    } else if i < p {
                        assert(str_lt(old_ps[i].0, n));
                        assert(new_ps[j] == old_ps[j - 1]);
                        if j - 1 > p {
                            assert(str_lt(old_ps[p as int].0, old_ps[j - 1].0));
                            lemma_str_lt_transitive(n, old_ps[p as int].0, old_ps[j - 1].0);
                        }
                        lemma_str_lt_transitive(old_ps[i].0, n, old_ps[j - 1].0);
                    } else if i == p {
                        assert(new_ps[j] == old_ps[j - 1]);
                        if j - 1 > p {
                            assert(str_lt(old_ps[p as int].0, old_ps[j - 1].0));
                            lemma_str_lt_transitive(n, old_ps[p as int].0, old_ps[j - 1].0);
                        }
                    } else {
                        assert(new_ps[i] == old_ps[i - 1] && new_ps[j] == old_ps[j - 1]);
                        assert(str_lt(old_ps[i - 1].0, old_ps[j - 1].0));
                    }
                }
                lemma_profile_map(new_ps);
                assert forall|k: Seq<char>| #[trigger] profile_map(new_ps).contains_key(k)
                    <==> profile_map(old_ps).insert(n, pv).contains_key(k) by {
                    if exists|i: int| 0 <= i < old_ps.len() && old_ps[i].0 == k {
                        let i = choose|i: int| 0 <= i < old_ps.len() && old_ps[i].0 == k;
                        if i < p {
                            assert(new_ps[i].0 == k);
                        } else {
                            assert(new_ps[i + 1].0 == k);
                        }
                    }
                    if exists|i: int| 0 <= i < new_ps.len() && new_ps[i].0 == k {
                        let i = choose|i: int| 0 <= i < new_ps.len() && new_ps[i].0 == k;
                        if i < p {
                            assert(old_ps[i].0 == k);
                        } else if i > p {
                            assert(old_ps[i - 1].0 == k);
                        }
                    }
                    assert(new_ps[p as int].0 == n);
                }
                assert forall|k: Seq<char>| #[trigger] profile_map(new_ps).contains_key(k)
                    implies profile_map(new_ps)[k] == profile_map(old_ps).insert(n, pv)[k] by {
                    let i = choose|i: int| 0 <= i < new_ps.len() && new_ps[i].0 == k;
                    assert(profile_map(new_ps)[new_ps[i].0] == new_ps[i].1);
                    if i < p {
                        assert(profile_map(old_ps)[old_ps[i].0] == old_ps[i].1);
                        lemma_str_lt_total(k, n);
                    } else if i > p {
                        assert(profile_map(old_ps)[old_ps[i - 1].0] == old_ps[i - 1].1);
                        assert(str_lt(new_ps[p as int].0, new_ps[i].0));
                        lemma_str_lt_total(k, n);
                    }
                }
                assert(profile_map(new_ps) =~= profile_map(old_ps).insert(n, pv));
            }
        }
    }

    /// Makes the profile of that name the active one; an error when there is none.
    pub fn switch_profile(&mut self, name: &str) -> (r: Result<(), AppError>)
        requires
            old(self)@.wf(),
        ensures
            final(self)@.profiles == old(self)@.profiles,
            match r {
                Ok(()) => old(self)@.map().contains_key(name@) && final(self)@.active == name@,
                Err(e) => !old(self)@.map().contains_key(name@) && e@ == profile_not_found(name@)
                    && final(self)@.active == old(self)@.active,
            },
    {
        proof { lemma_profile_map(self@.profiles); }
        match self.position(name) {
            None => {
                let mut m = "Profile '".to_owned();
                m.append(name);
                m.append("' not found");
                Err(AppError::NotFound(m))
            },
            Some(i) => {
                self.active_profile = name.to_owned();
                Ok(())
            },
        }
    }

    /// Removes the profile of that name; when it was the active one, the first remaining
    /// profile in name order becomes active (none when no profile is left). An error when
    /// there is no profile of that name.
    pub fn remove_profile(&mut self, name: &str) -> (r: Result<(), AppError>)
        requires
            old(self)@.wf(),
        ensures
            final(self)@.wf(),
            match r {
                Ok(()) => old(self)@.map().contains_key(name@)
                    && final(self)@.map() == old(self)@.map().remove(name@)
                    && final(self)@.active == if old(self)@.active == name@ {
                        final(self)@.first_name()
                    } else {
                        old(self)@.active
                    },
                Err(e) => !old(self)@.map().contains_key(name@) && e@ == profile_not_found(name@)
                    && final(self)@ == old(self)@,
            },
    {
        let ghost old_ps = self@.profiles;
        proof { lemma_profile_map(old_ps); }
        match self.position(name) {
            None => {
                let mut m = "Profile '".to_owned();
                m.append(name);
                m.append("' not found");
                Err(AppError::NotFound(m))
            },
            Some(p) => {
                self.profiles.remove(p);
                let ghost new_ps = self@.profiles;
                assert(new_ps =~= old_ps.remove(p as int));
                proof {
                    assert forall|i: int, j: int| 0 <= i < j < new_ps.len() implies str_lt(#[trigger] new_ps[i].0, #[trigger] new_ps[j].0) by {
                        let a = if i < p { i } else { i + 1 };
                        let b = if j < p { j } else { j + 1 };
                        assert(new_ps[i] == old_ps[a] && new_ps[j] == old_ps[b]);
                    }
                    lemma_profile_map(new_ps);
                    let n = name@;
                    assert forall|k: Seq<char>| #[trigger] profile_map(new_ps).contains_key(k)
                        <==> profile_map(old_ps).remove(n).contains_key(k) by {
                        if exists|i: int| 0 <= i < old_ps.len() && old_ps[i].0 == k {
                            let i = choose|i: int| 0 <= i < old_ps.len() && old_ps[i].0 == k;
                            if i < p {
                                assert(new_ps[i].0 == k);
                            } else if i > p {
                                assert(new_ps[i - 1].0 == k);
                            }
                        }
                        if exists|i: int| 0 <= i < new_ps.len() && new_ps[i].0 == k {
                            let i = choose|i: int| 0 <= i < new_ps.len() && new_ps[i].0 == k;
                            let a = if i < p { i } else { i + 1 };
                            assert(old_ps[a].0 == k);
                            assert(str_lt(old_ps[a].0, n) || str_lt(n, old_ps[a].0));
                            lemma_str_lt_total(k, k);
                        }
                    }
                    assert forall|k: Seq<char>| #[trigger] profile_map(new_ps).contains_key(k)
                        implies profile_map(new_ps)[k] == profile_map(old_ps).remove(n)[k] by {
                        let i = choose|i: int| 0 <= i < new_ps.len() && new_ps[i].0 == k;
                        let a = if i < p { i } else { i + 1 };
                        assert(new_ps[i] == old_ps[a]);
                        assert(profile_map(new_ps)[new_ps[i].0] == new_ps[i].1);
                        assert(profile_map(old_ps)[old_ps[a].0] == old_ps[a].1);
                    }
                    assert(profile_map(new_ps) =~= profile_map(old_ps).remove(n));
                }
                if str_equal(self.active_profile.as_str(), name) {
                    if self.profiles.len() > 0 {
                        self.active_profile = self.profiles[0].0.clone();
                    } else {
                        self.active_profile = String::new();
                    }
                }
                Ok(())
            },
        }
    }
}

/// Whether the active name is usable: it names a profile, or there is no profile and it
/// is empty.
pub open spec fn active_ok(active: Seq<char>, profiles: Map<Seq<char>, ProfileV>) -> bool {
    profiles.contains_key(active) || (profiles.dom() =~= Set::<Seq<char>>::empty() && active.len() == 0)
}

/// The profile that the active name selects, if any.
pub open spec fn active_lookup(active: Seq<char>, profiles: Map<Seq<char>, ProfileV>) -> Option<ProfileV> {
    if profiles.contains_key(active) { Some(profiles[active]) } else { None }
}

/// Settings with no profile have a usable active name.
pub proof fn law_new_active_ok()
    ensures
        active_ok(Seq::empty(), profile_map(Seq::empty())),
{
    assert(profile_map(Seq::<(Seq<char>, ProfileV)>::empty()).dom() =~= Set::<Seq<char>>::empty());
}

/// Adding a profile keeps the active name usable (the first profile added becomes the
/// active one), and the added profile is what its name then selects.
pub proof fn law_add_keeps_active_ok(c: ConfigV, name: Seq<char>, p: ProfileV)
    requires
        c.wf(),
        active_ok(c.active, c.map()),
    ensures
        active_ok(if c.profiles.len() == 0 { name } else { c.active }, c.map().insert(name, p)),
        active_lookup(name, c.map().insert(name, p)) == Some(p),
{
    lemma_profile_map(c.profiles);
    if c.profiles.len() > 0 {
        assert(c.map().contains_key(c.profiles[0].0));
        assert(c.map().dom().contains(c.profiles[0].0));
    }
}

/// A switch that succeeds makes the active name select the profile switched to.
pub proof fn law_switch_selects(c: ConfigV, name: Seq<char>)
    requires
        c.wf(),
        c.map().contains_key(name),
    ensures
        active_ok(name, c.map()),
        active_lookup(name, c.map()) == Some(c.map()[name]),
{
}

/// Removing a profile keeps the active name usable: when the active profile goes, the
/// first remaining one in name order takes its place, or none when none is left.
pub proof fn law_remove_keeps_active_ok(c: ConfigV, after: ConfigV, name: Seq<char>)
    requires
        c.wf(),
        after.wf(),
        active_ok(c.active, c.map()),
        c.map().contains_key(name),
        after.map() == c.map().remove(name),
    ensures
        active_ok(if c.active == name { after.first_name() } else { c.active }, after.map()),
{
    lemma_profile_map(c.profiles);
    lemma_profile_map(after.profiles);
    if c.active == name {
        if after.profiles.len() > 0 {
            assert(after.map().contains_key(after.profiles[0].0));
        } else {
            assert forall|k: Seq<char>| !after.map().dom().contains(k) by {
                if after.map().contains_key(k) {
                    let i = choose|i: int| 0 <= i < after.profiles.len() && after.profiles[i].0 == k;
                }
            }
            assert(after.map().dom() =~= Set::<Seq<char>>::empty());
        }
    } else {
        assert(c.map().dom().contains(name));
        assert(c.map().contains_key(c.active));
    }
}

} // verus!
