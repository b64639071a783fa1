//! Metadata that stands beside a script, in a YAML file of its own.
//!
//! ```text
//! myscript.py
//! myscript.py.meta.yml
//! ```
//!
//! What it gives takes precedence over what the script says of itself.

use vstd::prelude::*;

use crate::ast_deps;
use crate::extractor;
use crate::extractor::ExtractedMetadata;
use crate::text;
use crate::text::concat;

verus! {

/// What a sidecar file gives; `None` where it does not give a field.
#[derive(Debug)]
pub struct Sidecar {
    pub owner: Option<String>,
    pub purpose: Option<String>,
    pub tags: Option<Vec<String>>,
    pub entry_points: Option<Vec<String>>,
    pub related: Option<Vec<String>>,
}

/// The value of a sidecar.
pub struct SidecarView {
    pub owner: Option<Seq<char>>,
    pub purpose: Option<Seq<char>>,
    pub tags: Option<Seq<Seq<char>>>,
    pub entry_points: Option<Seq<Seq<char>>>,
    pub related: Option<Seq<Seq<char>>>,
}

/// The view of an optional list of texts.
pub open spec fn list_view(v: Option<Vec<String>>) -> Option<Seq<Seq<char>>> {
    match v {
        Some(v) => Some(text::views(v@)),
        None => None,
    }
}

impl View for Sidecar {
    type V = SidecarView;

    open spec fn view(&self) -> SidecarView {
        SidecarView {
            owner: ast_deps::option_view(self.owner),
            purpose: ast_deps::option_view(self.purpose),
            tags: list_view(self.tags),
            entry_points: list_view(self.entry_points),
            related: list_view(self.related),
        }
    }
}

/// The path of the sidecar of the script at `path`.
pub fn sidecar_path(path: &str) -> (sidecar: String)
    ensures
        sidecar@ == path@ + ".meta.yml"@,
{
    concat(path, ".meta.yml")
}

// ---------------------------------------------------------------------------
// Precedence
// ---------------------------------------------------------------------------

/// All that is known of a script besides its content.
pub struct FullMeta {
    pub meta: extractor::MetaView,
    pub tags: Seq<Seq<char>>,
    pub entry_points: Seq<Seq<char>>,
}

/// What is known of a script besides its content.
pub open spec fn full_meta(m: ExtractedMetadata) -> FullMeta {
    FullMeta {
        meta: m.meta(),
        tags: text::views(m.tags@),
        entry_points: text::views(m.entry_points@),
    }
}

/// `given`, or else `other`.
pub open spec fn given_or<T>(given: Option<T>, other: T) -> T {
    match given {
        Some(x) => x,
        None => other,
    }
}

/// What is known of a script with a sidecar: what the sidecar gives, and else
/// what the script says of itself.
pub open spec fn with_sidecar(own: FullMeta, s: SidecarView) -> FullMeta {
    FullMeta {
        meta: extractor::MetaView {
            owner: given_or(s.owner, own.meta.owner),
            purpose: given_or(s.purpose, own.meta.purpose),
            related: given_or(s.related, own.meta.related),
            fields: own.meta.fields,
        },
        tags: given_or(s.tags, own.tags),
        entry_points: given_or(s.entry_points, own.entry_points),
    }
}

/// What is known of a script whose sidecar may be missing.
pub open spec fn with_optional_sidecar(own: FullMeta, s: Option<Sidecar>) -> FullMeta {
    match s {
        Some(s) => with_sidecar(own, s@),
        None => own,
    }
}

/// Takes over what a sidecar gives.
pub fn apply_sidecar(meta: &mut ExtractedMetadata, sidecar: Sidecar)
    requires
        old(meta).wf(),
    ensures
        final(meta).wf(),
        full_meta(*final(meta)) == with_sidecar(full_meta(*old(meta)), sidecar@),
        final(meta).content == old(meta).content,
        final(meta).content_hash == old(meta).content_hash,
{
    if let Some(owner) = sidecar.owner {
        meta.owner = owner;
    }
    if let Some(purpose) = sidecar.purpose {
        meta.purpose = purpose;
    }
    if let Some(tags) = sidecar.tags {
        meta.tags = tags;
    }
    if let Some(entry_points) = sidecar.entry_points {
        meta.entry_points = entry_points;
    }
    if let Some(related) = sidecar.related {
        meta.related = related;
    }
}

/// The sources of metadata have an order of precedence: what a sidecar gives
/// holds, else what the header of the script gives, and the docstring of a
/// Python script counts only where neither gives a purpose.
pub proof fn law_sources_of_metadata_have_precedence(
    language: Seq<char>,
    content: Seq<char>,
    sidecar: SidecarView,
)
    ensures
        ({
            let header = extractor::header_meta(extractor::no_meta(), content);
            let own = FullMeta {
                meta: extractor::script_meta(language, content),
                tags: seq![],
                entry_points: seq![],
            };
            let full = with_sidecar(own, sidecar);
            &&& sidecar.owner matches Some(owner) ==> full.meta.owner == owner
            &&& sidecar.owner is None ==> full.meta.owner == header.owner
            &&& sidecar.purpose matches Some(purpose) ==> full.meta.purpose == purpose
            &&& sidecar.purpose is None && header.purpose.len() > 0 ==> full.meta.purpose
                == header.purpose
            &&& sidecar.purpose is None && header.purpose.len() == 0 && language != "python"@
                ==> full.meta.purpose.len() == 0
            &&& sidecar.related is None ==> full.meta.related == header.related
        }),
{
}

/// A sidecar decides on what it gives and on nothing else: each field is the
/// one that it gives, and what it does not give stays. Header fields stay in
/// any case.
pub proof fn law_a_sidecar_decides_on_what_it_gives(own: FullMeta, sidecar: SidecarView)
    ensures
        ({
            let full = with_sidecar(own, sidecar);
            &&& full.meta.owner == match sidecar.owner {
                Some(x) => x,
                None => own.meta.owner,
            }
            &&& full.meta.purpose == match sidecar.purpose {
                Some(x) => x,
                None => own.meta.purpose,
            }
            &&& full.meta.related == match sidecar.related {
                Some(x) => x,
                None => own.meta.related,
            }
            &&& full.tags == match sidecar.tags {
                Some(x) => x,
                None => own.tags,
            }
            &&& full.entry_points == match sidecar.entry_points {
                Some(x) => x,
                None => own.entry_points,
            }
            &&& full.meta.fields == own.meta.fields
            &&& with_sidecar(full, sidecar) == full
        }),
{
}

} // verus!
