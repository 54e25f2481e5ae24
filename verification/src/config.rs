//! The configuration record and its operations: profiles with their path
//! lists, the selected profile, the backup repository location and the
//! last backup identifier.
//!
//! Profiles are kept as a list in insertion order with pairwise distinct
//! names. A selected profile that names no existing profile is tolerated:
//! lookups treat it as an empty path list.

use vstd::prelude::*;

use crate::errors::CmdError;

verus! {

/// A named profile: an ordered list of path strings, duplicates suppressed
/// on add.
pub struct Profile {
    pub name: String,
    pub paths: Vec<String>,
}

/// The mathematical value of a `Profile`.
#[verifier::ext_equal]
pub struct ProfileView {
    pub name: Seq<char>,
    pub paths: Seq<Seq<char>>,
}

impl View for Profile {
    type V = ProfileView;

    open spec fn view(&self) -> ProfileView {
        ProfileView { name: self.name@, paths: self.paths.deep_view() }
    }
}

impl DeepView for Profile {
    type V = ProfileView;

    open spec fn deep_view(&self) -> ProfileView {
        self.view()
    }
}

/// The configuration record, loaded at the start of a command and
/// persisted at its end.
pub struct FuxiConfig {
    pub platform: Option<String>,
    pub selected_profile: Option<String>,
    pub profiles: Vec<Profile>,
    pub last_backup_id: Option<String>,
    pub backup_repo_path: Option<String>,
    pub github_repo: Option<String>,
    pub git_branch: String,
}

/// The mathematical value of a `FuxiConfig`.
#[verifier::ext_equal]
pub struct ConfigView {
    pub platform: Option<Seq<char>>,
    pub selected_profile: Option<Seq<char>>,
    pub profiles: Seq<ProfileView>,
    pub last_backup_id: Option<Seq<char>>,
    pub backup_repo_path: Option<Seq<char>>,
    pub github_repo: Option<Seq<char>>,
    pub git_branch: Seq<char>,
}

impl View for FuxiConfig {
    type V = ConfigView;

    open spec fn view(&self) -> ConfigView {
        ConfigView {
            platform: self.platform.deep_view(),
            selected_profile: self.selected_profile.deep_view(),
            profiles: self.profiles.deep_view(),
            last_backup_id: self.last_backup_id.deep_view(),
            backup_repo_path: self.backup_repo_path.deep_view(),
            github_repo: self.github_repo.deep_view(),
            git_branch: self.git_branch@,
        }
    }
}

/// The first index holding a profile of the given name, or `-1`.
pub open spec fn profile_index(profiles: Seq<ProfileView>, name: Seq<char>) -> int
    decreases profiles.len(),
{
    if profiles.len() == 0 {
        -1
    } else if profiles[0].name == name {
        0
    } else {
        let rest = profile_index(profiles.drop_first(), name);
        if rest < 0 {
            -1
        } else {
            rest + 1
        }
    }
}

/// Whether a profile of the given name exists.
pub open spec fn has_profile(profiles: Seq<ProfileView>, name: Seq<char>) -> bool {
    profile_index(profiles, name) >= 0
}

/// The path list of the named profile, or the empty list when the profile
/// does not exist.
pub open spec fn paths_of(profiles: Seq<ProfileView>, name: Seq<char>) -> Seq<Seq<char>> {
    if has_profile(profiles, name) {
        profiles[profile_index(profiles, name)].paths
    } else {
        Seq::empty()
    }
}

/// The path list of the selected profile; empty when no profile is
/// selected or the selection names no existing profile.
pub open spec fn selected_paths(c: ConfigView) -> Seq<Seq<char>> {
    match c.selected_profile {
        Some(name) => paths_of(c.profiles, name),
        None => Seq::empty(),
    }
}

/// `profile_index` lands in bounds and on the given name, and is the
/// first such index; a negative result means the name is absent.
pub proof fn lemma_profile_index_spec(profiles: Seq<ProfileView>, name: Seq<char>)
    ensures
        has_profile(profiles, name) ==> {
            let i = profile_index(profiles, name);
            0 <= i < profiles.len() && profiles[i].name == name && forall|j: int|
                0 <= j < i ==> (#[trigger] profiles[j]).name != name
        },
        !has_profile(profiles, name) ==> forall|j: int|
            0 <= j < profiles.len() ==> (#[trigger] profiles[j]).name != name,
    decreases profiles.len(),
{
    if profiles.len() > 0 && profiles[0].name != name {
        lemma_profile_index_spec(profiles.drop_first(), name);
        assert(forall|j: int|
            1 <= j < profiles.len() ==> #[trigger] profiles[j] == profiles.drop_first()[j - 1]);
    }
}

/// Clones a vector of strings, keeping its contents.
pub fn clone_string_vec(v: &Vec<String>) -> (r: Vec<String>)
    ensures
        r.deep_view() == v.deep_view(),
{
    let mut r: Vec<String> = Vec::new();
    let mut i: usize = 0;
    while i < v.len()
        invariant
            0 <= i <= v.len(),
            r.deep_view() =~~= v.deep_view().take(i as int),
        decreases v.len() - i,
    {
        let ghost prev = r.deep_view();
        let c = v[i].clone();
        proof {
            assert(c.deep_view() == v.deep_view()[i as int]);
        }
        r.push(c);
        proof {
            assert(r.deep_view() =~~= prev.push(v.deep_view()[i as int]));
            assert(v.deep_view().take(i + 1) =~~= v.deep_view().take(i as int).push(
                v.deep_view()[i as int],
            ));
        }
        i = i + 1;
    }
    proof {
        assert(v.deep_view().take(v.len() as int) =~~= v.deep_view());
    }
    r
}

impl FuxiConfig {
    /// The first position holding a profile of the given name.
    fn find_profile(&self, name: &String) -> (r: Option<usize>)
        ensures
            match r {
                Some(i) => i == profile_index(self@.profiles, name@) && i < self.profiles.len(),
                None => !has_profile(self@.profiles, name@),
            },
    {
        let mut i: usize = 0;
        while i < self.profiles.len()
            invariant
                0 <= i <= self.profiles.len(),
                forall|j: int| 0 <= j < i ==> (#[trigger] self@.profiles[j]).name != name@,
            decreases self.profiles.len() - i,
        {
            if self.profiles[i].name == *name {
                proof {
                    lemma_profile_index_spec(self@.profiles, name@);
                    assert(self@.profiles[i as int].name == name@);
                }
                return Some(i);
            }
            i = i + 1;
        }
        proof {
            lemma_profile_index_spec(self@.profiles, name@);
        }
        None
    }
}

/// Whether two configurations agree on everything but the profile list
/// and the selection.
pub open spec fn same_but_profiles_and_selection(a: ConfigView, b: ConfigView) -> bool {
    a.platform == b.platform && a.last_backup_id == b.last_backup_id && a.backup_repo_path
        == b.backup_repo_path && a.github_repo == b.github_repo && a.git_branch == b.git_branch
}

/// The outcome of creating a profile.
pub struct CreateResult {
    /// The profile did not exist and was created.
    pub created: bool,
    /// The profile became the selected one, because it is the only one.
    pub now_selected: bool,
}

impl FuxiConfig {
    /// The path list of the selected profile, as registered; empty when no
    /// profile is selected or the selection names no existing profile.
    pub fn get_selected_profile_paths(&self) -> (r: Vec<String>)
        ensures
            r.deep_view() == selected_paths(self@),
    {
        match &self.selected_profile {
            Some(sel) => match self.find_profile(sel) {
                Some(i) => {
                    let r = clone_string_vec(&self.profiles[i].paths);
                    proof {
                        let ghost k = i as int;
                        assert(self@.profiles[k].paths == self.profiles@[k]@.paths);
                    }
                    r
                },
                None => {
                    let r: Vec<String> = Vec::new();
                    proof {
                        assert(r.deep_view() =~~= Seq::<Seq<char>>::empty());
                    }
                    r
                },
            },
            None => {
                let r: Vec<String> = Vec::new();
                proof {
                    assert(r.deep_view() =~~= Seq::<Seq<char>>::empty());
                }
                r
            },
        }
    }

    /// Records the identifier of the most recent backup.
    pub fn update_last_backup_id(&mut self, id: &String)
        ensures
            final(self)@ == (ConfigView { last_backup_id: Some(id@), ..old(self)@ }),
    {
        self.last_backup_id = Some(id.clone());
    }

    /// Creates a profile with an empty path list unless one of that name
    /// exists; either way, when it leaves exactly one profile in the
    /// configuration, that profile becomes the selected one.
    pub fn profile_create(&mut self, name: &String) -> (r: CreateResult)
        ensures
            r.created == !has_profile(old(self)@.profiles, name@),
            r.created ==> final(self)@.profiles == old(self)@.profiles.push(
                ProfileView { name: name@, paths: Seq::empty() },
            ),
            !r.created ==> final(self)@.profiles == old(self)@.profiles,
            r.now_selected == (final(self)@.profiles.len() == 1),
            r.now_selected ==> final(self)@.selected_profile == Some(name@),
            !r.now_selected ==> final(self)@.selected_profile == old(self)@.selected_profile,
            same_but_profiles_and_selection(final(self)@, old(self)@),
    {
        let created = match self.find_profile(name) {
            Some(_) => false,
            None => {
                self.profiles.push(Profile { name: name.clone(), paths: Vec::new() });
                proof {
                    assert(self@.profiles =~~= old(self)@.profiles.push(
                        ProfileView { name: name@, paths: Seq::empty() },
                    ));
                }
                true
            },
        };
        let now_selected = self.profiles.len() == 1;
        if now_selected {
            self.selected_profile = Some(name.clone());
        }
        CreateResult { created, now_selected }
    }

    /// Makes the named profile the selected one; without a profile of that
    /// name the configuration is unchanged.
    pub fn profile_select(&mut self, name: &String) -> (r: bool)
        ensures
            r == has_profile(old(self)@.profiles, name@),
            r ==> final(self)@ == (ConfigView {
                selected_profile: Some(name@),
                ..old(self)@
            }),
            !r ==> final(self)@ == old(self)@,
    {
        match self.find_profile(name) {
            Some(_) => {
                self.selected_profile = Some(name.clone());
                true
            },
            None => false,
        }
    }

    /// Deletes the named profile. Deleting the currently selected profile
    /// clears the selection; deleting any other profile leaves the
    /// selection unchanged. Without a profile of that name the
    /// configuration is unchanged.
    pub fn profile_delete(&mut self, name: &String) -> (r: bool)
        ensures
            r == has_profile(old(self)@.profiles, name@),
            !r ==> final(self)@ == old(self)@,
            r ==> final(self)@.profiles == old(self)@.profiles.remove(
                profile_index(old(self)@.profiles, name@),
            ),
            r ==> final(self)@.selected_profile == (if old(self)@.selected_profile == Some(
                name@,
            ) {
                None::<Seq<char>>
            } else {
                old(self)@.selected_profile
            }),
            same_but_profiles_and_selection(final(self)@, old(self)@),
    {
        match self.find_profile(name) {
            Some(i) => {
                self.profiles.remove(i);
                proof {
                    assert(self@.profiles =~~= old(self)@.profiles.remove(i as int));
                }
                let clear = match &self.selected_profile {
                    Some(sel) => *sel == *name,
                    None => false,
                };
                if clear {
                    self.selected_profile = None;
                }
                true
            },
            None => false,
        }
    }
}

/// One path added to a list: appended unless already present.
pub open spec fn add_one_path(paths: Seq<Seq<char>>, p: Seq<char>) -> Seq<Seq<char>> {
    if paths.contains(p) {
        paths
    } else {
        paths.push(p)
    }
}

/// A batch of paths added left to right.
pub open spec fn add_all_paths(paths: Seq<Seq<char>>, new: Seq<Seq<char>>) -> Seq<Seq<char>>
    decreases new.len(),
{
    if new.len() == 0 {
        paths
    } else {
        add_all_paths(add_one_path(paths, new[0]), new.drop_first())
    }
}

/// The first index holding the given path, or `-1`.
pub open spec fn first_path_index(paths: Seq<Seq<char>>, p: Seq<char>) -> int
    decreases paths.len(),
{
    if paths.len() == 0 {
        -1
    } else if paths[0] == p {
        0
    } else {
        let rest = first_path_index(paths.drop_first(), p);
        if rest < 0 {
            -1
        } else {
            rest + 1
        }
    }
}

/// One path removed from a list: its first occurrence taken out when
/// present.
pub open spec fn remove_one_path(paths: Seq<Seq<char>>, p: Seq<char>) -> Seq<Seq<char>> {
    if paths.contains(p) {
        paths.remove(first_path_index(paths, p))
    } else {
        paths
    }
}

/// A batch of paths removed left to right.
pub open spec fn remove_all_paths(paths: Seq<Seq<char>>, gone: Seq<Seq<char>>) -> Seq<Seq<char>>
    decreases gone.len(),
{
    if gone.len() == 0 {
        paths
    } else {
        remove_all_paths(remove_one_path(paths, gone[0]), gone.drop_first())
    }
}

/// Adding a path already present in the list is a no-op on the list.
pub proof fn lemma_add_present_path_noop(paths: Seq<Seq<char>>, p: Seq<char>)
    requires
        paths.contains(p),
    ensures
        add_one_path(paths, p) == paths,
{
}

/// Removing a path not present in the list is a no-op on the list.
pub proof fn lemma_remove_absent_path_noop(paths: Seq<Seq<char>>, p: Seq<char>)
    requires
        !paths.contains(p),
    ensures
        remove_one_path(paths, p) == paths,
{
}

/// `first_path_index` lands in bounds and on the given path exactly when
/// the path is present.
pub proof fn lemma_first_path_index_spec(paths: Seq<Seq<char>>, p: Seq<char>)
    ensures
        paths.contains(p) ==> {
            let i = first_path_index(paths, p);
            0 <= i < paths.len() && paths[i] == p && forall|j: int|
                0 <= j < i ==> paths[j] != p
        },
        !paths.contains(p) ==> forall|j: int| 0 <= j < paths.len() ==> paths[j] != p,
    decreases paths.len(),
{
    if paths.len() > 0 && paths[0] != p {
        lemma_first_path_index_spec(paths.drop_first(), p);
        assert(forall|j: int|
            1 <= j < paths.len() ==> paths[j] == paths.drop_first()[j - 1]);
        if paths.drop_first().contains(p) {
            let k = choose|k: int|
                0 <= k < paths.drop_first().len() && paths.drop_first()[k] == p;
            assert(paths[k + 1] == p);
        } else {
            if paths.contains(p) {
                let k = choose|k: int| 0 <= k < paths.len() && paths[k] == p;
                assert(paths.drop_first()[k - 1] == p);
            }
        }
    }
}

/// A batch grows one element at its end: the whole batch is the shorter
/// batch followed by one more addition.
proof fn lemma_add_all_paths_snoc(paths: Seq<Seq<char>>, new: Seq<Seq<char>>, p: Seq<char>)
    ensures
        add_all_paths(paths, new.push(p)) == add_one_path(add_all_paths(paths, new), p),
    decreases new.len(),
{
    if new.len() == 0 {
        assert(new.push(p)[0] == p);
        assert(new.push(p).drop_first() =~~= Seq::<Seq<char>>::empty());
        assert(add_all_paths(paths, new.push(p)) == add_all_paths(
            add_one_path(paths, p),
            new.push(p).drop_first(),
        ));
        assert(add_all_paths(add_one_path(paths, p), new.push(p).drop_first()) == add_one_path(
            paths,
            p,
        ));
    } else {
        assert(new.push(p)[0] == new[0]);
        assert(new.push(p).drop_first() =~~= new.drop_first().push(p));
        assert(add_all_paths(paths, new.push(p)) == add_all_paths(
            add_one_path(paths, new[0]),
            new.drop_first().push(p),
        ));
        lemma_add_all_paths_snoc(add_one_path(paths, new[0]), new.drop_first(), p);
        assert(add_all_paths(paths, new) == add_all_paths(
            add_one_path(paths, new[0]),
            new.drop_first(),
        ));
    }
}

/// The same for removals.
proof fn lemma_remove_all_paths_snoc(paths: Seq<Seq<char>>, gone: Seq<Seq<char>>, p: Seq<char>)
    ensures
        remove_all_paths(paths, gone.push(p)) == remove_one_path(
            remove_all_paths(paths, gone),
            p,
        ),
    decreases gone.len(),
{
    if gone.len() == 0 {
        assert(gone.push(p)[0] == p);
        assert(gone.push(p).drop_first() =~~= Seq::<Seq<char>>::empty());
        assert(remove_all_paths(paths, gone.push(p)) == remove_all_paths(
            remove_one_path(paths, p),
            gone.push(p).drop_first(),
        ));
        assert(remove_all_paths(remove_one_path(paths, p), gone.push(p).drop_first())
            == remove_one_path(paths, p));
    } else {
        assert(gone.push(p)[0] == gone[0]);
        assert(gone.push(p).drop_first() =~~= gone.drop_first().push(p));
        assert(remove_all_paths(paths, gone.push(p)) == remove_all_paths(
            remove_one_path(paths, gone[0]),
            gone.drop_first().push(p),
        ));
        lemma_remove_all_paths_snoc(remove_one_path(paths, gone[0]), gone.drop_first(), p);
        assert(remove_all_paths(paths, gone) == remove_all_paths(
            remove_one_path(paths, gone[0]),
            gone.drop_first(),
        ));
    }
}

/// Whether a list of strings holds the given string.
fn contains_string(v: &Vec<String>, p: &String) -> (r: bool)
    ensures
        r == v.deep_view().contains(p@),
{
    let mut i: usize = 0;
    while i < v.len()
        invariant
            0 <= i <= v.len(),
            forall|j: int| 0 <= j < i ==> v.deep_view()[j] != p@,
        decreases v.len() - i,
    {
        if v[i] == *p {
            proof {
                assert(v.deep_view()[i as int] == p@);
            }
            return true;
        }
        i = i + 1;
    }
    proof {
        if v.deep_view().contains(p@) {
            let k = choose|k: int| 0 <= k < v.deep_view().len() && v.deep_view()[k] == p@;
        }
    }
    false
}

/// The first position of the given string in a list.
fn find_string(v: &Vec<String>, p: &String) -> (r: Option<usize>)
    ensures
        match r {
            Some(i) => i == first_path_index(v.deep_view(), p@) && i < v.len()
                && v.deep_view().contains(p@),
            None => !v.deep_view().contains(p@),
        },
{
    let mut i: usize = 0;
    while i < v.len()
        invariant
            0 <= i <= v.len(),
            forall|j: int| 0 <= j < i ==> v.deep_view()[j] != p@,
        decreases v.len() - i,
    {
        if v[i] == *p {
            proof {
                assert(v.deep_view()[i as int] == p@);
                lemma_first_path_index_spec(v.deep_view(), p@);
            }
            return Some(i);
        }
        i = i + 1;
    }
    proof {
        if v.deep_view().contains(p@) {
            let k = choose|k: int| 0 <= k < v.deep_view().len() && v.deep_view()[k] == p@;
        }
    }
    None
}


impl FuxiConfig {
    /// Adds each given path to the selected profile's list, in order,
    /// skipping paths already present; reports per path whether it was
    /// added. The profile entry is created when the selection names no
    /// existing profile. Without a selected profile (or with an empty
    /// selection) nothing changes.
    pub fn add_paths(&mut self, new_paths: &Vec<String>) -> (r: Result<Vec<bool>, CmdError>)
        ensures
            match old(self)@.selected_profile {
                None => r == Err::<Vec<bool>, CmdError>(CmdError::NoProfileSelected)
                    && final(self)@ == old(self)@,
                Some(sel) => if sel.len() == 0 {
                    r == Err::<Vec<bool>, CmdError>(CmdError::NoProfileSelected) && final(self)@
                        == old(self)@
                } else {
                    r matches Ok(outcomes) && ({
                        let paths0 = paths_of(old(self)@.profiles, sel);
                        let newv = new_paths.deep_view();
                        &&& outcomes@.len() == newv.len()
                        &&& forall|i: int|
                            0 <= i < newv.len() ==> outcomes@[i] == !add_all_paths(
                                paths0,
                                newv.take(i),
                            ).contains(newv[i])
                        &&& final(self)@.profiles == (if has_profile(old(self)@.profiles, sel) {
                            old(self)@.profiles.update(
                                profile_index(old(self)@.profiles, sel),
                                ProfileView { name: sel, paths: add_all_paths(paths0, newv) },
                            )
                        } else {
                            old(self)@.profiles.push(
                                ProfileView { name: sel, paths: add_all_paths(paths0, newv) },
                            )
                        })
                        &&& final(self)@.selected_profile == old(self)@.selected_profile
                        &&& same_but_profiles_and_selection(final(self)@, old(self)@)
                    })
                },
            },
    {
        let sel = match &self.selected_profile {
            Some(s) => {
                if s.as_str().unicode_len() == 0 {
                    return Err(CmdError::NoProfileSelected);
                }
                s.clone()
            },
            None => {
                return Err(CmdError::NoProfileSelected);
            },
        };
        let ghost paths0 = paths_of(old(self)@.profiles, sel@);
        let ghost existed = has_profile(old(self)@.profiles, sel@);
        let idx: usize = match self.find_profile(&sel) {
            Some(i) => {
                proof {
                    lemma_profile_index_spec(old(self)@.profiles, sel@);
                }
                i
            },
            None => {
                let n = self.profiles.len();
                self.profiles.push(Profile { name: sel.clone(), paths: Vec::new() });
                n
            },
        };
        let ghost base = self@.profiles;
        proof {
            assert(self@.profiles[idx as int].paths =~~= paths0);
            assert(self@.profiles[idx as int].name == sel@);
        }
        let ghost newv = new_paths.deep_view();
        let mut outcomes: Vec<bool> = Vec::new();
        let mut k: usize = 0;
        while k < new_paths.len()
            invariant
                idx < self.profiles.len(),
                k <= new_paths.len(),
                newv == new_paths.deep_view(),
                base.len() == self.profiles.len(),
                outcomes@.len() == k,
                forall|i: int|
                    0 <= i < k ==> outcomes@[i] == !add_all_paths(paths0, newv.take(i)).contains(
                        newv[i],
                    ),
                self@.profiles =~~= base.update(
                    idx as int,
                    ProfileView { name: sel@, paths: add_all_paths(paths0, newv.take(k as int)) },
                ),
                self@.selected_profile == old(self)@.selected_profile,
                same_but_profiles_and_selection(self@, old(self)@),
            decreases new_paths.len() - k,
        {
            proof {
                assert(self@.profiles[idx as int].paths == add_all_paths(
                    paths0,
                    newv.take(k as int),
                ));
                assert(new_paths.deep_view()[k as int] == new_paths@[k as int]@);
            }
            let ghost before = self@.profiles;
            let p = &new_paths[k];
            let present = contains_string(&self.profiles[idx].paths, p);
            proof {
                assert(present == add_all_paths(paths0, newv.take(k as int)).contains(
                    newv[k as int],
                ));
            }
            if !present {
                self.profiles[idx].paths.push(p.clone());
                proof {
                    assert(self@.profiles[idx as int].paths =~~= add_all_paths(
                        paths0,
                        newv.take(k as int),
                    ).push(newv[k as int]));
                    assert(self@.profiles[idx as int].name == sel@);
                    assert(forall|j: int|
                        0 <= j < before.len() && j != idx ==> #[trigger] self@.profiles[j]
                            == before[j]);
                }
            }
            outcomes.push(!present);
            proof {
                assert(newv.take(k + 1) =~~= newv.take(k as int).push(newv[k as int]));
                lemma_add_all_paths_snoc(paths0, newv.take(k as int), newv[k as int]);
                assert(self@.profiles[idx as int] =~~= ProfileView {
                    name: sel@,
                    paths: add_all_paths(paths0, newv.take(k + 1)),
                });
                assert(self@.profiles =~~= base.update(
                    idx as int,
                    ProfileView { name: sel@, paths: add_all_paths(paths0, newv.take(k + 1)) },
                ));
            }
            k = k + 1;
        }
        proof {
            assert(newv.take(new_paths.len() as int) =~~= newv);
            if existed {
                assert(base == old(self)@.profiles);
                assert(idx as int == profile_index(old(self)@.profiles, sel@));
            } else {
                assert(base =~~= old(self)@.profiles.push(
                    ProfileView { name: sel@, paths: Seq::empty() },
                ));
                assert(base.update(
                    idx as int,
                    ProfileView { name: sel@, paths: add_all_paths(paths0, newv) },
                ) =~~= old(self)@.profiles.push(
                    ProfileView { name: sel@, paths: add_all_paths(paths0, newv) },
                ));
            }
        }
        Ok(outcomes)
    }

    /// Removes each given path from the selected profile's list, in
    /// order, skipping paths not present; reports per path whether it was
    /// removed. The profile entry is created when the selection names no
    /// existing profile. Without a selected profile (or with an empty
    /// selection) nothing changes.
    pub fn remove_paths(&mut self, paths_to_remove: &Vec<String>) -> (r: Result<
        Vec<bool>,
        CmdError,
    >)
        ensures
            match old(self)@.selected_profile {
                None => r == Err::<Vec<bool>, CmdError>(CmdError::NoProfileSelected)
                    && final(self)@ == old(self)@,
                Some(sel) => if sel.len() == 0 {
                    r == Err::<Vec<bool>, CmdError>(CmdError::NoProfileSelected) && final(self)@
                        == old(self)@
                } else {
                    r matches Ok(outcomes) && ({
                        let paths0 = paths_of(old(self)@.profiles, sel);
                        let gone = paths_to_remove.deep_view();
                        &&& outcomes@.len() == gone.len()
                        &&& forall|i: int|
                            0 <= i < gone.len() ==> outcomes@[i] == remove_all_paths(
                                paths0,
                                gone.take(i),
                            ).contains(gone[i])
                        &&& final(self)@.profiles == (if has_profile(old(self)@.profiles, sel) {
                            old(self)@.profiles.update(
                                profile_index(old(self)@.profiles, sel),
                                ProfileView { name: sel, paths: remove_all_paths(paths0, gone) },
                            )
                        } else {
                            old(self)@.profiles.push(
                                ProfileView { name: sel, paths: remove_all_paths(paths0, gone) },
                            )
                        })
                        &&& final(self)@.selected_profile == old(self)@.selected_profile
                        &&& same_but_profiles_and_selection(final(self)@, old(self)@)
                    })
                },
            },
    {
        let sel = match &self.selected_profile {
            Some(s) => {
                if s.as_str().unicode_len() == 0 {
                    return Err(CmdError::NoProfileSelected);
                }
                s.clone()
            },
            None => {
                return Err(CmdError::NoProfileSelected);
            },
        };
        let ghost paths0 = paths_of(old(self)@.profiles, sel@);
        let ghost existed = has_profile(old(self)@.profiles, sel@);
        let idx: usize = match self.find_profile(&sel) {
            Some(i) => {
                proof {
                    lemma_profile_index_spec(old(self)@.profiles, sel@);
                }
                i
            },
            None => {
                let n = self.profiles.len();
                self.profiles.push(Profile { name: sel.clone(), paths: Vec::new() });
                n
            },
        };
        let ghost base = self@.profiles;
        proof {
            assert(self@.profiles[idx as int].paths =~~= paths0);
            assert(self@.profiles[idx as int].name == sel@);
        }
        let ghost gone = paths_to_remove.deep_view();
        let mut outcomes: Vec<bool> = Vec::new();
        let mut k: usize = 0;
        while k < paths_to_remove.len()
            invariant
                idx < self.profiles.len(),
                k <= paths_to_remove.len(),
                gone == paths_to_remove.deep_view(),
                base.len() == self.profiles.len(),
                outcomes@.len() == k,
                forall|i: int|
                    0 <= i < k ==> outcomes@[i] == remove_all_paths(
                        paths0,
                        gone.take(i),
                    ).contains(gone[i]),
                self@.profiles =~~= base.update(
                    idx as int,
                    ProfileView {
                        name: sel@,
                        paths: remove_all_paths(paths0, gone.take(k as int)),
                    },
                ),
                self@.selected_profile == old(self)@.selected_profile,
                same_but_profiles_and_selection(self@, old(self)@),
            decreases paths_to_remove.len() - k,
        {
            proof {
                assert(self@.profiles[idx as int].paths == remove_all_paths(
                    paths0,
                    gone.take(k as int),
                ));
                assert(paths_to_remove.deep_view()[k as int] == paths_to_remove@[k as int]@);
            }
            let ghost before = self@.profiles;
            let ghost cur = remove_all_paths(paths0, gone.take(k as int));
            let p = &paths_to_remove[k];
            let found = find_string(&self.profiles[idx].paths, p);
            let removed = match found {
                Some(pos) => {
                    proof {
                        lemma_first_path_index_spec(cur, gone[k as int]);
                    }
                    self.profiles[idx].paths.remove(pos);
                    proof {
                        assert(self@.profiles[idx as int].paths =~~= cur.remove(pos as int));
                        assert(self@.profiles[idx as int].name == sel@);
                        assert(forall|j: int|
                            0 <= j < before.len() && j != idx ==> #[trigger] self@.profiles[j]
                                == before[j]);
                    }
                    true
                },
                None => false,
            };
            outcomes.push(removed);
            proof {
                assert(gone.take(k + 1) =~~= gone.take(k as int).push(gone[k as int]));
                lemma_remove_all_paths_snoc(paths0, gone.take(k as int), gone[k as int]);
                assert(self@.profiles[idx as int] =~~= ProfileView {
                    name: sel@,
                    paths: remove_all_paths(paths0, gone.take(k + 1)),
                });
                assert(self@.profiles =~~= base.update(
                    idx as int,
                    ProfileView {
                        name: sel@,
                        paths: remove_all_paths(paths0, gone.take(k + 1)),
                    },
                ));
            }
            k = k + 1;
        }
        proof {
            assert(gone.take(paths_to_remove.len() as int) =~~= gone);
            if existed {
                assert(base == old(self)@.profiles);
                assert(idx as int == profile_index(old(self)@.profiles, sel@));
            } else {
                assert(base =~~= old(self)@.profiles.push(
                    ProfileView { name: sel@, paths: Seq::empty() },
                ));
                assert(base.update(
                    idx as int,
                    ProfileView { name: sel@, paths: remove_all_paths(paths0, gone) },
                ) =~~= old(self)@.profiles.push(
                    ProfileView { name: sel@, paths: remove_all_paths(paths0, gone) },
                ));
            }
        }
        Ok(outcomes)
    }
}

/// The default configuration: no platform, no selection, no profiles, no
/// recorded backup, no repository, branch `main`.
impl Default for FuxiConfig {
    fn default() -> (r: Self)
        ensures
            r@.platform is None,
            r@.selected_profile is None,
            r@.profiles =~= Seq::<ProfileView>::empty(),
            r@.last_backup_id is None,
            r@.backup_repo_path is None,
            r@.github_repo is None,
            r@.git_branch == "main"@,
    {
        FuxiConfig {
            platform: None,
            selected_profile: None,
            profiles: Vec::new(),
            last_backup_id: None,
            backup_repo_path: None,
            github_repo: None,
            git_branch: String::from_str("main"),
        }
    }
}

} // verus!
