//! The IP project registry and the configuration defaults.
use vstd::prelude::*;
use crate::text::{chars_of, chars_eq, trim_seq, trim_str};
use crate::paths::{join, join_rel, no_verbatim};

verus! {

/// One game IP / project Synthetrix can focus on (the "currently open project").
/// The model vault (vault_root/catalog) is global/shared; everything per-IP —
/// lore, prompts, generated assets, metadata, releases — hangs off `lore_root`.
#[derive(Debug, Clone)]
pub struct Project {
    pub name: String,
    pub lore_root: String,  // lore-bible repo, e.g. I:/moar | I:/discarded
    pub engine_root: String,  // UE5 project root (may be empty), e.g. F:/moarvibe
    pub asset_vault: String,  // generated-asset vault; empty => <lore_root>/.synthetrix/assets
}

/// A project as plain values: (name, lore_root, engine_root, asset_vault).
pub open spec fn project_view(p: Project) -> (Seq<char>, Seq<char>, Seq<char>, Seq<char>) {
    (p.name@, p.lore_root@, p.engine_root@, p.asset_vault@)
}

impl Project {
    /// `<lore_root>/.synthetrix`: the per-IP workspace directory (for a lore
    /// root without the verbatim prefix, as `join_rel` says).
    pub fn synthetrix_dir(&self) -> (r: String)
        ensures
            no_verbatim(self.lore_root@) ==> join_rel(self.lore_root@, ".synthetrix"@, r@),
    {
        proof {
            reveal_strlit(".synthetrix");
        }
        join(self.lore_root.as_str(), ".synthetrix")
    }

    /// Per-IP project DB (lore index, prompt matrix, assets, jobs, releases):
    /// `<lore_root>/.synthetrix/project.sqlite`.
    pub fn project_db_path(&self) -> (r: String)
        ensures
            no_verbatim(self.lore_root@) ==> exists|d: Seq<char>|
                join_rel(self.lore_root@, ".synthetrix"@, d) && (no_verbatim(d) ==> join_rel(d, "project.sqlite"@, r@)),
    {
        let d = self.synthetrix_dir();
        proof {
            reveal_strlit("project.sqlite");
        }
        join(d.as_str(), "project.sqlite")
    }

    /// The generated-asset vault: `asset_vault` when it is set (not blank),
    /// else `<lore_root>/.synthetrix/assets`.
    pub fn asset_vault_path(&self) -> (r: String)
        ensures
            trim_seq(self.asset_vault@).len() > 0 ==> r@ == self.asset_vault@,
            trim_seq(self.asset_vault@).len() == 0 && no_verbatim(self.lore_root@) ==> exists|d: Seq<char>|
                join_rel(self.lore_root@, ".synthetrix"@, d) && (no_verbatim(d) ==> join_rel(d, "assets"@, r@)),
    {
        let t = trim_str(self.asset_vault.as_str());
        if t.as_str().is_empty() {
            let d = self.synthetrix_dir();
            proof {
                reveal_strlit("assets");
            }
            join(d.as_str(), "assets")
        } else {
            self.asset_vault.clone()
        }
    }
}

/// The seeded IPs.
pub open spec fn default_projects_spec() -> Seq<(Seq<char>, Seq<char>, Seq<char>, Seq<char>)> {
    seq![
        ("MOAR"@, "I:/moar"@, "F:/moarvibe"@, Seq::<char>::empty()),
        ("DISCARDED"@, "I:/discarded"@, Seq::<char>::empty(), Seq::<char>::empty()),
    ]
}

/// Seeded IPs (used on first run / when config carries none).
pub fn default_projects() -> (r: Vec<Project>)
    ensures
        r@.map_values(|p: Project| project_view(p)) == default_projects_spec(),
{
    let r = vec![
        Project {
            name: "MOAR".to_owned(),
            lore_root: "I:/moar".to_owned(),
            engine_root: "F:/moarvibe".to_owned(),
            asset_vault: String::new(),
        },
        Project {
            name: "DISCARDED".to_owned(),
            lore_root: "I:/discarded".to_owned(),
            engine_root: String::new(),
            asset_vault: String::new(),
        },
    ];
    assert(r@.map_values(|p: Project| project_view(p)) =~= default_projects_spec());
    r
}

/// The local ComfyUI REST base used when the config names none.
pub fn default_comfy_url() -> (r: String)
    ensures
        r@ == "http://127.0.0.1:8188"@,
{
    "http://127.0.0.1:8188".to_owned()
}

/// ElevenLabs' stock "Rachel" voice — a safe default until the IP sets its own.
pub fn default_eleven_voice() -> (r: String)
    ensures
        r@ == "21m00Tcm4TlvDq8ikWAM"@,
{
    "21m00Tcm4TlvDq8ikWAM".to_owned()
}

/// Vault/NVMe subfolder for a CivitAI model type.
pub open spec fn subdir_spec(model_type: Seq<char>) -> Seq<char> {
    if model_type == "Checkpoint"@ {
        "checkpoints"@
    } else if model_type == "LORA"@ || model_type == "LoCon"@ {
        "loras"@
    } else if model_type == "TextualInversion"@ {
        "embeddings"@
    } else if model_type == "Controlnet"@ {
        "controlnet"@
    } else if model_type == "VAE"@ {
        "vae"@
    } else if model_type == "Upscaler"@ {
        "upscale_models"@
    } else {
        "misc"@
    }
}

/// The CivitAI model types ComfyUI loads from a folder of their own, each
/// with that folder (the vault and NVMe subfolders the audit scans).
pub open spec fn model_type_folders() -> Seq<(Seq<char>, Seq<char>)> {
    seq![
        ("Checkpoint"@, "checkpoints"@),
        ("LORA"@, "loras"@),
        ("LoCon"@, "loras"@),
        ("TextualInversion"@, "embeddings"@),
        ("Controlnet"@, "controlnet"@),
        ("VAE"@, "vae"@),
        ("Upscaler"@, "upscale_models"@),
    ]
}

/// Each model type ComfyUI loads from its own folder goes to that folder,
/// and every other type to `misc`.
pub proof fn law_model_type_folders(t: Seq<char>)
    ensures
        forall|i: int| 0 <= i < model_type_folders().len() ==> subdir_spec(#[trigger] model_type_folders()[i].0)
            == model_type_folders()[i].1,
        (forall|i: int| 0 <= i < model_type_folders().len() ==> t != #[trigger] model_type_folders()[i].0)
            ==> subdir_spec(t) == "misc"@,
{
    reveal_strlit("Checkpoint");
    reveal_strlit("LORA");
    reveal_strlit("LoCon");
    reveal_strlit("TextualInversion");
    reveal_strlit("Controlnet");
    reveal_strlit("VAE");
    reveal_strlit("Upscaler");
    let f = model_type_folders();
    assert(subdir_spec("Checkpoint"@) == "checkpoints"@);
    assert(subdir_spec("LORA"@) == "loras"@) by {
        assert("LORA"@.len() != "Checkpoint"@.len());
    }
    assert(subdir_spec("LoCon"@) == "loras"@) by {
        assert("LoCon"@.len() != "Checkpoint"@.len());
        assert("LoCon"@.len() != "LORA"@.len());
    }
    assert(subdir_spec("TextualInversion"@) == "embeddings"@) by {
        assert("TextualInversion"@.len() != "Checkpoint"@.len());
        assert("TextualInversion"@.len() != "LORA"@.len());
        assert("TextualInversion"@.len() != "LoCon"@.len());
    }
    assert(subdir_spec("Controlnet"@) == "controlnet"@) by {
        assert("Controlnet"@[1] != "Checkpoint"@[1]);
        assert("Controlnet"@.len() != "LORA"@.len());
        assert("Controlnet"@.len() != "LoCon"@.len());
        assert("Controlnet"@.len() != "TextualInversion"@.len());
    }
    assert(subdir_spec("VAE"@) == "vae"@) by {
        assert("VAE"@.len() != "Checkpoint"@.len());
        assert("VAE"@.len() != "LORA"@.len());
        assert("VAE"@.len() != "LoCon"@.len());
        assert("VAE"@.len() != "TextualInversion"@.len());
        assert("VAE"@.len() != "Controlnet"@.len());
    }
    assert(subdir_spec("Upscaler"@) == "upscale_models"@) by {
        assert("Upscaler"@.len() != "Checkpoint"@.len());
        assert("Upscaler"@.len() != "LORA"@.len());
        assert("Upscaler"@.len() != "LoCon"@.len());
        assert("Upscaler"@.len() != "TextualInversion"@.len());
        assert("Upscaler"@.len() != "Controlnet"@.len());
        assert("Upscaler"@.len() != "VAE"@.len());
    }
    assert forall|i: int| 0 <= i < f.len() implies subdir_spec(#[trigger] f[i].0) == f[i].1 by {}
    if forall|i: int| 0 <= i < f.len() ==> t != #[trigger] f[i].0 {
        assert(t != f[0].0 && t != f[1].0 && t != f[2].0 && t != f[3].0 && t != f[4].0 && t != f[5].0 && t != f[6].0);
    }
}

fn is(v: &Vec<char>, s: &str) -> (r: bool)
    ensures
        r == (v@ == s@),
{
    chars_eq(v, &chars_of(s))
}

/// Vault/NVMe subfolder for a CivitAI model type.
pub fn subdir_for(model_type: &str) -> (r: &'static str)
    ensures
        r@ == subdir_spec(model_type@),
{
    let m = chars_of(model_type);
    if is(&m, "Checkpoint") {
        "checkpoints"
    } else if is(&m, "LORA") || is(&m, "LoCon") {
        "loras"
    } else if is(&m, "TextualInversion") {
        "embeddings"
    } else if is(&m, "Controlnet") {
        "controlnet"
    } else if is(&m, "VAE") {
        "vae"
    } else if is(&m, "Upscaler") {
        "upscale_models"
    } else {
        "misc"
    }
}

/// Effective token: the configured token (trimmed) when it is not blank, else
/// the `CIVITAI_TOKEN` environment value when that is set and non-empty.
pub fn effective_token(config_token: &str, env_token: Option<String>) -> (r: Option<String>)
    ensures
        trim_seq(config_token@).len() > 0 ==> (r matches Some(t) && t@ == trim_seq(config_token@)),
        trim_seq(config_token@).len() == 0 ==> match env_token {
            Some(e) => if e@.len() > 0 {
                (r matches Some(t) && t@ == e@)
            } else {
                r is None
            },
            None => r is None,
        },
{
    let t = trim_str(config_token);
    if !t.as_str().is_empty() {
        Some(t)
    } else {
        match env_token {
            Some(e) => {
                if e.as_str().is_empty() {
                    None
                } else {
                    Some(e)
                }
            },
            None => None,
        }
    }
}

/// The index of the project named `name` among `projects` (the first match).
pub fn find_project(projects: &Vec<Project>, name: &str) -> (r: Option<usize>)
    ensures
        r matches Some(i) ==> i < projects@.len() && projects@[i as int].name@ == name@ && (
        forall|j: int| 0 <= j < i ==> #[trigger] projects@[j].name@ != name@),
        r is None ==> forall|j: int| 0 <= j < projects@.len() ==> #[trigger] projects@[j].name@ != name@,
{
    let nv = chars_of(name);
    let mut i: usize = 0;
    while i < projects.len()
        invariant
            i <= projects@.len(),
            nv@ == name@,
            forall|j: int| 0 <= j < i ==> #[trigger] projects@[j].name@ != name@,
        decreases projects@.len() - i,
    {
        if chars_eq(&chars_of(projects[i].name.as_str()), &nv) {
            return Some(i);
        }
        i += 1;
    }
    None
}

/// Seeds a configuration that predates the project registry: an empty registry
/// gets the default projects, and with no active project the first one becomes
/// active.
pub fn seed_projects(projects: &mut Vec<Project>, active: &mut Option<String>)
    ensures
        old(projects)@.len() > 0 ==> final(projects)@ == old(projects)@,
        old(projects)@.len() == 0 ==> final(projects)@.map_values(|p: Project| project_view(p))
            == default_projects_spec(),
        (*old(active)) is Some ==> *final(active) == *old(active),
        (*old(active)) is None ==> ((*final(active)) matches Some(a) && a@ == final(projects)@[0].name@),
{
    if projects.len() == 0 {
        *projects = default_projects();
        assert(projects@.map_values(|p: Project| project_view(p)).len() == 2);
    }
    if active.is_none() {
        *active = Some(projects[0].name.clone());
    }
}

} // verus!
