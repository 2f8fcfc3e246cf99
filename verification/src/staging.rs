//! Staging state for the interactive builder around the library.
//!
//! The embedding application walks a user through selecting ROM and
//! manual files; the decisions of that flow — which list a selected path
//! joins, what the next step is, how paths split into files and
//! directories — live here as verified functions on plain values. The
//! application performs the I/O (listing directories, drawing menus) and
//! hands the results back as strings.

use vstd::prelude::*;

verus! {

/// Persisted preferences: the preferred region and where browsing starts.
/// The application expands the `~` in the browse directory before use.
pub struct AppConfig {
    pub region: String,
    pub default_browse_directory: String,
}

impl Clone for AppConfig {
    fn clone(&self) -> (r: AppConfig)
        ensures
            r.region@ == self.region@,
            r.default_browse_directory@ == self.default_browse_directory@,
    {
        AppConfig {
            region: self.region.clone(),
            default_browse_directory: self.default_browse_directory.clone(),
        }
    }
}

impl Default for AppConfig {
    /// The out-of-the-box preferences: United States, browsing from the
    /// user's home directory.
    fn default() -> (r: AppConfig)
        ensures
            r.region@ == "United States"@,
            r.default_browse_directory@ == "~"@,
    {
        AppConfig {
            region: "United States".to_owned(),
            default_browse_directory: "~".to_owned(),
        }
    }
}

/// Which selection screen the builder flow is on.
#[derive(Clone, Copy, Debug, PartialEq, Eq, Structural)]
pub enum BuildStep {
    RomSelection,
    ManualSelection,
}

impl Default for BuildStep {
    fn default() -> (r: BuildStep)
        ensures
            r == BuildStep::RomSelection,
    {
        BuildStep::RomSelection
    }
}

/// After each screen, the flow moves on; the last screen repeats until
/// the case is built.
pub open spec fn next_step(s: BuildStep) -> BuildStep {
    match s {
        BuildStep::RomSelection => BuildStep::ManualSelection,
        BuildStep::ManualSelection => BuildStep::ManualSelection,
    }
}

/// Everything staged so far while building one case.
pub struct BuildState {
    pub current_step: BuildStep,
    pub staged_roms: Vec<String>,
    pub staged_manuals: Vec<String>,
    pub staged_rom_hacks: Vec<String>,
    pub staged_images: Vec<String>,
    pub staged_videos: Vec<String>,
}

impl Default for BuildState {
    fn default() -> (r: BuildState)
        ensures
            r.current_step == BuildStep::RomSelection,
            r.staged_roms@.len() == 0,
            r.staged_manuals@.len() == 0,
            r.staged_rom_hacks@.len() == 0,
            r.staged_images@.len() == 0,
            r.staged_videos@.len() == 0,
    {
        BuildState {
            current_step: BuildStep::RomSelection,
            staged_roms: Vec::new(),
            staged_manuals: Vec::new(),
            staged_rom_hacks: Vec::new(),
            staged_images: Vec::new(),
            staged_videos: Vec::new(),
        }
    }
}

impl BuildState {
    /// Stage one selected path on the list the current step collects:
    /// ROMs while selecting ROMs, manuals while selecting manuals. The
    /// other lists do not move.
    pub fn stage_file(&mut self, path: String)
        ensures
            old(self).current_step == BuildStep::RomSelection ==> final(self).staged_roms@ == old(
                self,
            ).staged_roms@.push(path) && final(self).staged_manuals@ == old(
                self,
            ).staged_manuals@,
            old(self).current_step == BuildStep::ManualSelection ==> final(self).staged_manuals@
                == old(self).staged_manuals@.push(path) && final(self).staged_roms@ == old(
                self,
            ).staged_roms@,
            final(self).current_step == old(self).current_step,
            final(self).staged_rom_hacks@ == old(self).staged_rom_hacks@,
            final(self).staged_images@ == old(self).staged_images@,
            final(self).staged_videos@ == old(self).staged_videos@,
    {
        match self.current_step {
            BuildStep::RomSelection => self.staged_roms.push(path),
            BuildStep::ManualSelection => self.staged_manuals.push(path),
        }
    }

    /// Move to the next selection screen.
    pub fn advance_step(&mut self)
        ensures
            final(self).current_step == next_step(old(self).current_step),
            final(self).staged_roms@ == old(self).staged_roms@,
            final(self).staged_manuals@ == old(self).staged_manuals@,
            final(self).staged_rom_hacks@ == old(self).staged_rom_hacks@,
            final(self).staged_images@ == old(self).staged_images@,
            final(self).staged_videos@ == old(self).staged_videos@,
    {
        let next = match self.current_step {
            BuildStep::RomSelection => BuildStep::ManualSelection,
            BuildStep::ManualSelection => BuildStep::ManualSelection,
        };
        self.current_step = next;
    }
}

/// The whole application state: preferences plus the staging area.
pub struct AppState {
    pub config: AppConfig,
    pub build_state: BuildState,
}

impl Default for AppState {
    fn default() -> (r: AppState)
        ensures
            r.config.region@ == "United States"@,
            r.config.default_browse_directory@ == "~"@,
            r.build_state.current_step == BuildStep::RomSelection,
            r.build_state.staged_roms@.len() == 0,
            r.build_state.staged_manuals@.len() == 0,
    {
        AppState { config: AppConfig::default(), build_state: BuildState::default() }
    }
}

// ---------------------------------------------------------------------
// Sorting selected paths into files and directories
// ---------------------------------------------------------------------

/// What a path points at, as the application's directory listing
/// reported it.
#[derive(Clone, Copy, Debug, PartialEq, Eq, Structural)]
pub enum PathKind {
    File,
    Directory,
    Other,
}

/// One path with its file name and what it points at.
pub struct PathEntry {
    pub name: String,
    pub path: String,
    pub kind: PathKind,
}

/// The label an entry is listed under: its file name with a trailing
/// slash.
pub open spec fn entry_label(e: PathEntry) -> Seq<char> {
    e.name@ + "/"@
}

/// Which labelled paths are files and which are directories, in input
/// order; paths of any other kind are ignored.
pub open spec fn spec_organize(s: Seq<PathEntry>) -> (Seq<(Seq<char>, Seq<char>)>, Seq<
    (Seq<char>, Seq<char>),
>)
    decreases s,
{
    if s.len() == 0 {
        (Seq::empty(), Seq::empty())
    } else {
        let rest = spec_organize(s.subrange(1, s.len() as int));
        match s[0].kind {
            PathKind::File => (seq![(entry_label(s[0]), s[0].path@)] + rest.0, rest.1),
            PathKind::Directory => (rest.0, seq![(entry_label(s[0]), s[0].path@)] + rest.1),
            PathKind::Other => rest,
        }
    }
}

/// The labelled string pairs of a vector, as sequences of characters.
pub open spec fn pair_models(v: Seq<(String, String)>) -> Seq<(Seq<char>, Seq<char>)>
    decreases v,
{
    if v.len() == 0 {
        Seq::empty()
    } else {
        seq![(v[0].0@, v[0].1@)] + pair_models(v.subrange(1, v.len() as int))
    }
}

proof fn lemma_pair_models_push(v: Seq<(String, String)>, x: (String, String))
    ensures
        pair_models(v.push(x)) == pair_models(v).push((x.0@, x.1@)),
    decreases v,
{
    if v.len() == 0 {
        assert(v.push(x) =~= seq![x]);
        assert(seq![x].subrange(1, 1) =~= Seq::<(String, String)>::empty());
        assert(pair_models(seq![x].subrange(1, 1)) =~= Seq::<(Seq<char>, Seq<char>)>::empty());
        assert(pair_models(seq![x]) =~= seq![(x.0@, x.1@)]);
        assert(pair_models(v) =~= Seq::<(Seq<char>, Seq<char>)>::empty());
        assert(pair_models(v).push((x.0@, x.1@)) =~= seq![(x.0@, x.1@)]);
    } else {
        let t = v.push(x);
        assert(t[0] == v[0]);
        assert(t.subrange(1, t.len() as int) =~= v.subrange(1, v.len() as int).push(x));
        lemma_pair_models_push(v.subrange(1, v.len() as int), x);
        assert(pair_models(t) =~= pair_models(v).push((x.0@, x.1@)));
    }
}

/// Splitting the input splits the outputs.
proof fn lemma_spec_organize_app(s1: Seq<PathEntry>, s2: Seq<PathEntry>)
    ensures
        spec_organize(s1 + s2).0 == spec_organize(s1).0 + spec_organize(s2).0,
        spec_organize(s1 + s2).1 == spec_organize(s1).1 + spec_organize(s2).1,
    decreases s1,
{
    if s1.len() == 0 {
        assert(s1 + s2 =~= s2);
        assert(spec_organize(s1).0 + spec_organize(s2).0 =~= spec_organize(s2).0);
        assert(spec_organize(s1).1 + spec_organize(s2).1 =~= spec_organize(s2).1);
    } else {
        let t = s1 + s2;
        assert(t[0] == s1[0]);
        assert(t.subrange(1, t.len() as int) =~= s1.subrange(1, s1.len() as int) + s2);
        lemma_spec_organize_app(s1.subrange(1, s1.len() as int), s2);
        assert(spec_organize(t).0 =~= spec_organize(s1).0 + spec_organize(s2).0);
        assert(spec_organize(t).1 =~= spec_organize(s1).1 + spec_organize(s2).1);
    }
}

proof fn lemma_spec_organize_snoc(s: Seq<PathEntry>, i: int)
    requires
        0 <= i < s.len(),
    ensures
        spec_organize(s.subrange(0, i + 1)).0 == spec_organize(s.subrange(0, i)).0 + (
        match s[i].kind {
            PathKind::File => seq![(entry_label(s[i]), s[i].path@)],
            _ => Seq::<(Seq<char>, Seq<char>)>::empty(),
        }),
        spec_organize(s.subrange(0, i + 1)).1 == spec_organize(s.subrange(0, i)).1 + (
        match s[i].kind {
            PathKind::Directory => seq![(entry_label(s[i]), s[i].path@)],
            _ => Seq::<(Seq<char>, Seq<char>)>::empty(),
        }),
{
    let one = seq![s[i]];
    assert(s.subrange(0, i + 1) =~= s.subrange(0, i) + one);
    lemma_spec_organize_app(s.subrange(0, i), one);
    assert(one[0] == s[i]);
    assert(one.subrange(1, 1) =~= Seq::<PathEntry>::empty());
    assert(spec_organize(one.subrange(1, 1)).0 =~= Seq::<(Seq<char>, Seq<char>)>::empty());
    assert(spec_organize(one.subrange(1, 1)).1 =~= Seq::<(Seq<char>, Seq<char>)>::empty());
    match s[i].kind {
        PathKind::File => {
            assert(spec_organize(one).0 =~= seq![(entry_label(s[i]), s[i].path@)]);
            assert(spec_organize(one).1 =~= Seq::<(Seq<char>, Seq<char>)>::empty());
        },
        PathKind::Directory => {
            assert(spec_organize(one).0 =~= Seq::<(Seq<char>, Seq<char>)>::empty());
            assert(spec_organize(one).1 =~= seq![(entry_label(s[i]), s[i].path@)]);
        },
        PathKind::Other => {
            assert(spec_organize(one).0 =~= Seq::<(Seq<char>, Seq<char>)>::empty());
            assert(spec_organize(one).1 =~= Seq::<(Seq<char>, Seq<char>)>::empty());
        },
    }
}

/// Sort selected paths into labelled files and labelled directories,
/// keeping input order and dropping anything that is neither.
pub fn organize_paths(input_paths: &Vec<PathEntry>) -> (r: (
    Vec<(String, String)>,
    Vec<(String, String)>,
))
    ensures
        pair_models(r.0@) == spec_organize(input_paths@).0,
        pair_models(r.1@) == spec_organize(input_paths@).1,
{
    let mut file_paths: Vec<(String, String)> = Vec::new();
    let mut dir_paths: Vec<(String, String)> = Vec::new();
    let mut i: usize = 0;
    proof {
        assert(input_paths@.subrange(0, 0) =~= Seq::<PathEntry>::empty());
        assert(pair_models(file_paths@) =~= spec_organize(input_paths@.subrange(0, 0)).0);
        assert(pair_models(dir_paths@) =~= spec_organize(input_paths@.subrange(0, 0)).1);
    }
    while i < input_paths.len()
        invariant
            i <= input_paths@.len(),
            pair_models(file_paths@) == spec_organize(input_paths@.subrange(0, i as int)).0,
            pair_models(dir_paths@) == spec_organize(input_paths@.subrange(0, i as int)).1,
        decreases input_paths@.len() - i,
    {
        let e = &input_paths[i];
        let mut label = e.name.clone();
        label.append("/");
        let pair = (label, e.path.clone());
        proof {
            lemma_spec_organize_snoc(input_paths@, i as int);
        }
        match e.kind {
            PathKind::File => {
                proof {
                    lemma_pair_models_push(file_paths@, pair);
                }
                file_paths.push(pair);
                assert(pair_models(file_paths@) =~= spec_organize(
                    input_paths@.subrange(0, i + 1),
                ).0);
                assert(pair_models(dir_paths@) =~= spec_organize(
                    input_paths@.subrange(0, i + 1),
                ).1);
            },
            PathKind::Directory => {
                proof {
                    lemma_pair_models_push(dir_paths@, pair);
                }
                dir_paths.push(pair);
                assert(pair_models(file_paths@) =~= spec_organize(
                    input_paths@.subrange(0, i + 1),
                ).0);
                assert(pair_models(dir_paths@) =~= spec_organize(
                    input_paths@.subrange(0, i + 1),
                ).1);
            },
            PathKind::Other => {
                assert(pair_models(file_paths@) =~= spec_organize(
                    input_paths@.subrange(0, i + 1),
                ).0);
                assert(pair_models(dir_paths@) =~= spec_organize(
                    input_paths@.subrange(0, i + 1),
                ).1);
            },
        }
        i = i + 1;
    }
    proof {
        assert(input_paths@.subrange(0, input_paths@.len() as int) =~= input_paths@);
    }
    (file_paths, dir_paths)
}

} // verus!
