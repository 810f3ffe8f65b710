//! The program's settings: what to download, at which sizes, where to, and
//! how many downloads may run at once.

use vstd::prelude::*;
use vstd::string::StringExecFns;
use crate::download::DownloadTarget;
use crate::path::{join_path, lemma_join_stays_inside, spec_join};
use crate::text::string_views;

verus! {

/// The command-line program. Its entry point parses the arguments into
/// [`DownloadArgs`] and drives the download with them.
pub struct App;

/// The sizes in which textures are offered.
#[derive(Clone, Copy, Debug, PartialEq, Eq)]
#[allow(non_camel_case_types)]
pub enum TextureSize {
    _1K,
    _2K,
    _4K,
}

/// The sizes in which skyboxes are offered.
#[derive(Clone, Copy, Debug, PartialEq, Eq)]
#[allow(non_camel_case_types)]
pub enum SkyboxSize {
    _2K,
}

impl TextureSize {
    /// The label of the size.
    pub open spec fn label(self) -> Seq<char> {
        match self {
            TextureSize::_1K => "1K"@,
            TextureSize::_2K => "2K"@,
            TextureSize::_4K => "4K"@,
        }
    }

    /// The label of the size: `1K`, `2K` or `4K`.
    pub fn to_string(&self) -> (res: String)
        ensures
            res@ == self.label(),
    {
        match self {
            TextureSize::_1K => String::from_str("1K"),
            TextureSize::_2K => String::from_str("2K"),
            TextureSize::_4K => String::from_str("4K"),
        }
    }
}

impl SkyboxSize {
    /// The label of the size.
    pub open spec fn label(self) -> Seq<char> {
        match self {
            SkyboxSize::_2K => "2K"@,
        }
    }

    /// The label of the size: `2K`.
    pub fn to_string(&self) -> (res: String)
        ensures
            res@ == self.label(),
    {
        match self {
            SkyboxSize::_2K => String::from_str("2K"),
        }
    }
}

/// What to download: everything, only textures, or only skyboxes.
#[derive(Clone, Copy, Debug, PartialEq, Eq)]
pub enum DownloadMode {
    All { size_textures: TextureSize, size_skybox: SkyboxSize },
    Textures { size_textures: TextureSize },
    Skybox { size_skybox: SkyboxSize },
}

/// The settings of one run.
pub struct DownloadArgs {
    dir: String,
    mode: DownloadMode,
    limit: usize,
}

/// The settings of one run as values.
pub struct DownloadArgsView {
    pub dir: Seq<char>,
    pub mode: DownloadMode,
    pub limit: nat,
}

impl View for DownloadArgs {
    type V = DownloadArgsView;

    closed spec fn view(&self) -> DownloadArgsView {
        DownloadArgsView { dir: self.dir@, mode: self.mode, limit: self.limit as nat }
    }
}

/// The targets that a mode downloads, textures before skyboxes.
pub open spec fn mode_targets(mode: DownloadMode) -> Seq<DownloadTarget> {
    match mode {
        DownloadMode::All { .. } => seq![DownloadTarget::Textures, DownloadTarget::Skybox],
        DownloadMode::Textures { .. } => seq![DownloadTarget::Textures],
        DownloadMode::Skybox { .. } => seq![DownloadTarget::Skybox],
    }
}

/// The label of the download button for `target` in `mode`: the label of the
/// size the mode chose for that target (empty for a target the mode does not
/// download).
pub open spec fn spec_button_text(mode: DownloadMode, target: DownloadTarget) -> Seq<char> {
    match target {
        DownloadTarget::Textures => match mode {
            DownloadMode::All { size_textures, .. } => size_textures.label(),
            DownloadMode::Textures { size_textures } => size_textures.label(),
            DownloadMode::Skybox { .. } => Seq::empty(),
        },
        DownloadTarget::Skybox => match mode {
            DownloadMode::All { size_skybox, .. } => size_skybox.label(),
            DownloadMode::Skybox { size_skybox } => size_skybox.label(),
            DownloadMode::Textures { .. } => Seq::empty(),
        },
    }
}

/// For every target a mode downloads, the button looked for is labelled with
/// the size the mode chose for that target, and never empty: `1K`, `2K` or
/// `4K` for textures as chosen, and `2K` for skyboxes, the only skybox size.
pub proof fn lemma_button_follows_size(mode: DownloadMode, target: DownloadTarget)
    requires
        mode_targets(mode).contains(target),
    ensures
        spec_button_text(mode, target).len() == 2,
        target == DownloadTarget::Skybox ==> spec_button_text(mode, target) == "2K"@,
        match (mode, target) {
            (DownloadMode::All { size_textures, .. }, DownloadTarget::Textures) => spec_button_text(
                mode,
                target,
            ) == size_textures.label(),
            (DownloadMode::Textures { size_textures }, DownloadTarget::Textures) => spec_button_text(
                mode,
                target,
            ) == size_textures.label(),
            (DownloadMode::All { size_skybox, .. }, DownloadTarget::Skybox) => spec_button_text(
                mode,
                target,
            ) == size_skybox.label(),
            (DownloadMode::Skybox { size_skybox }, DownloadTarget::Skybox) => spec_button_text(
                mode,
                target,
            ) == size_skybox.label(),
            _ => true,
        },
{
    reveal_strlit("1K");
    reveal_strlit("2K");
    reveal_strlit("4K");
    let ts = mode_targets(mode);
    let k = choose|k: int| 0 <= k < ts.len() && ts[k] == target;
    match mode {
        DownloadMode::All { size_textures, size_skybox } => {
            match size_textures {
                TextureSize::_1K => {},
                TextureSize::_2K => {},
                TextureSize::_4K => {},
            }
            match size_skybox {
                SkyboxSize::_2K => {},
            }
        },
        DownloadMode::Textures { size_textures } => {
            assert(target == DownloadTarget::Textures);
            match size_textures {
                TextureSize::_1K => {},
                TextureSize::_2K => {},
                TextureSize::_4K => {},
            }
        },
        DownloadMode::Skybox { size_skybox } => {
            assert(target == DownloadTarget::Skybox);
            match size_skybox {
                SkyboxSize::_2K => {},
            }
        },
    }
}

/// The name of the subdirectory that receives a target's files.
pub open spec fn target_subdir(target: DownloadTarget) -> Seq<char> {
    match target {
        DownloadTarget::Textures => "textures"@,
        DownloadTarget::Skybox => "skybox"@,
    }
}

/// The directory that receives a target's files.
pub open spec fn spec_target_dir(dir: Seq<char>, target: DownloadTarget) -> Seq<char> {
    spec_join(dir, target_subdir(target))
}

/// The directories a run needs, in the order they are made: the download
/// directory, then the directory of each target of the mode.
pub open spec fn spec_directories(args: DownloadArgsView) -> Seq<Seq<char>> {
    seq![args.dir] + mode_targets(args.mode).map_values(
        |t: DownloadTarget| spec_target_dir(args.dir, t),
    )
}

impl DownloadArgs {
    /// Settings with the given download directory, mode and limit on downloads
    /// running at once.
    pub fn new(dir: String, mode: DownloadMode, limit: usize) -> (res: DownloadArgs)
        ensures
            res@.dir == dir@,
            res@.mode == mode,
            res@.limit == limit,
    {
        DownloadArgs { dir, mode, limit }
    }

    /// The download directory.
    pub fn dir(&self) -> (res: &String)
        ensures
            res@ == self@.dir,
    {
        &self.dir
    }

    /// What to download.
    pub fn mode(&self) -> (res: DownloadMode)
        ensures
            res == self@.mode,
    {
        self.mode
    }

    /// The directory for textures: `textures` inside the download directory.
    pub fn download_textures_dir(&self) -> (res: String)
        ensures
            res@ == spec_join(self@.dir, "textures"@),
    {
        join_path(self.dir.as_str(), "textures")
    }

    /// The directory for skyboxes: `skybox` inside the download directory.
    pub fn download_skybox_dir(&self) -> (res: String)
        ensures
            res@ == spec_join(self@.dir, "skybox"@),
    {
        join_path(self.dir.as_str(), "skybox")
    }

    /// The directory for a target's files.
    pub fn target_dir(&self, target: DownloadTarget) -> (res: String)
        ensures
            res@ == spec_target_dir(self@.dir, target),
    {
        match target {
            DownloadTarget::Textures => self.download_textures_dir(),
            DownloadTarget::Skybox => self.download_skybox_dir(),
        }
    }

    /// The label of the download button for `target`: the label of the size
    /// chosen for it (see [`spec_button_text`]).
    pub fn button_text(&self, target: DownloadTarget) -> (res: String)
        ensures
            res@ == spec_button_text(self@.mode, target),
    {
        match target {
            DownloadTarget::Textures => match self.mode {
                DownloadMode::All { size_textures, .. } => size_textures.to_string(),
                DownloadMode::Textures { size_textures } => size_textures.to_string(),
                DownloadMode::Skybox { .. } => String::new(),
            },
            DownloadTarget::Skybox => match self.mode {
                DownloadMode::All { size_skybox, .. } => size_skybox.to_string(),
                DownloadMode::Skybox { size_skybox } => size_skybox.to_string(),
                DownloadMode::Textures { .. } => String::new(),
            },
        }
    }

    /// The largest number of downloads that may run at once.
    pub fn limit(&self) -> (res: usize)
        ensures
            res == self@.limit,
    {
        self.limit
    }

    /// The targets this run downloads, textures before skyboxes.
    pub fn targets(&self) -> (res: Vec<DownloadTarget>)
        ensures
            res@ == mode_targets(self@.mode),
    {
        match self.mode {
            DownloadMode::All { .. } => {
                let mut v = Vec::new();
                v.push(DownloadTarget::Textures);
                v.push(DownloadTarget::Skybox);
                assert(v@ =~= mode_targets(self@.mode));
                v
            },
            DownloadMode::Textures { .. } => {
                let mut v = Vec::new();
                v.push(DownloadTarget::Textures);
                assert(v@ =~= mode_targets(self@.mode));
                v
            },
            DownloadMode::Skybox { .. } => {
                let mut v = Vec::new();
                v.push(DownloadTarget::Skybox);
                assert(v@ =~= mode_targets(self@.mode));
                v
            },
        }
    }

    /// The directories that must exist before downloading, in the order they are
    /// made: the download directory, then the directory of each target of the mode.
    pub fn required_directories(&self) -> (res: Vec<String>)
        ensures
            string_views(res@) == spec_directories(self@),
    {
        let targets = self.targets();
        let mut res: Vec<String> = Vec::new();
        res.push(self.dir.clone());
        let mut i: usize = 0;
        while i < targets.len()
            invariant
                i <= targets.len(),
                targets@ == mode_targets(self@.mode),
                string_views(res@) == seq![self@.dir] + targets@.take(i as int).map_values(
                    |t: DownloadTarget| spec_target_dir(self@.dir, t),
                ),
            decreases targets.len() - i,
        {
            let d = self.target_dir(targets[i]);
            res.push(d);
            i = i + 1;
            assert(targets@.take(i as int).map_values(
                |t: DownloadTarget| spec_target_dir(self@.dir, t),
            ) =~= targets@.take((i - 1) as int).map_values(
                |t: DownloadTarget| spec_target_dir(self@.dir, t),
            ).push(spec_target_dir(self@.dir, targets@[i - 1])));
            assert(string_views(res@) =~= (seq![self@.dir] + targets@.take((i - 1) as int).map_values(
                |t: DownloadTarget| spec_target_dir(self@.dir, t),
            )).push(spec_target_dir(self@.dir, targets@[i - 1])));
        }
        assert(targets@.take(i as int) =~= targets@);
        res
    }
}


/// Every target of a run downloads into a directory that the run prepares
/// first.
pub proof fn lemma_targets_use_prepared_directories(args: DownloadArgsView)
    ensures
        forall|i: int|
            0 <= i < mode_targets(args.mode).len() ==> spec_directories(args).contains(
                spec_target_dir(args.dir, #[trigger] mode_targets(args.mode)[i]),
            ),
        spec_directories(args)[0] == args.dir,
{
    assert forall|i: int| 0 <= i < mode_targets(args.mode).len() implies spec_directories(
        args,
    ).contains(spec_target_dir(args.dir, #[trigger] mode_targets(args.mode)[i])) by {
        assert(spec_directories(args)[i + 1] == spec_target_dir(args.dir, mode_targets(args.mode)[i]));
    }
}

/// The directories of the two targets differ, and each lies inside the
/// download directory: it begins with that directory and ends with its own
/// subdirectory name.
pub proof fn lemma_target_dirs(dir: Seq<char>)
    ensures
        spec_target_dir(dir, DownloadTarget::Textures) != spec_target_dir(dir, DownloadTarget::Skybox),
        forall|t: DownloadTarget|
            #![trigger spec_target_dir(dir, t)]
            spec_target_dir(dir, t).subrange(0, dir.len() as int) == dir && spec_target_dir(
                dir,
                t,
            ).subrange(
                spec_target_dir(dir, t).len() - target_subdir(t).len(),
                spec_target_dir(dir, t).len() as int,
            ) == target_subdir(t),
{
    reveal_strlit("textures");
    reveal_strlit("skybox");
    lemma_join_stays_inside(dir, "textures"@);
    lemma_join_stays_inside(dir, "skybox"@);
    assert forall|t: DownloadTarget|
        #![trigger spec_target_dir(dir, t)]
        spec_target_dir(dir, t).subrange(0, dir.len() as int) == dir && spec_target_dir(
            dir,
            t,
        ).subrange(
            spec_target_dir(dir, t).len() - target_subdir(t).len(),
            spec_target_dir(dir, t).len() as int,
        ) == target_subdir(t) by {
        match t {
            DownloadTarget::Textures => {},
            DownloadTarget::Skybox => {},
        }
    }
    let a = spec_target_dir(dir, DownloadTarget::Textures);
    let b = spec_target_dir(dir, DownloadTarget::Skybox);
    assert(a.len() != b.len());
}

} // verus!
