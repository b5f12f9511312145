//! What the table-building jobs read and write.

use vstd::prelude::*;

verus! {

/// A product of the compiler.
#[derive(Debug, Clone, Copy, PartialEq, Eq, Structural)]
pub enum WorkId {
    StaticMetadata,
    GlobalMetrics,
    GlyphOrder,
    /// Every glyph of the font.
    AllGlyphs,
    /// Every compiled fragment of `glyf`.
    AllGlyfFragments,
    Glyf,
    Cff,
    ExtraFeaTables,
    Post,
    Vmtx,
    Vhea,
    Vorg,
}

/// What a job may touch.
#[derive(Debug, PartialEq, Eq)]
pub enum Access {
    /// Not known until the glyph order is.
    Unknown,
    /// These products.
    Variants(Vec<WorkId>),
}

impl Access {
    /// The products that may be touched, if that is known.
    pub open spec fn variants(self) -> Option<Seq<WorkId>> {
        match self {
            Access::Unknown => None,
            Access::Variants(ids) => Some(ids@),
        }
    }
}

/// A job.
#[derive(Debug, PartialEq, Eq)]
pub struct Work {
    /// What it makes.
    pub id: WorkId,
    pub reads: Access,
    pub writes: Access,
    /// What else is made when it is done.
    pub also_completes: Vec<WorkId>,
}

/// The job that makes a `CFF ` or `CFF2` table. It reads every glyph, and their
/// names are not known until the glyph order is final.
pub fn create_cff_work() -> (r: Work)
    ensures
        r.id == WorkId::Cff,
        r.reads is Unknown,
        r.writes.variants() == Some(seq![WorkId::Cff]),
        r.also_completes@.len() == 0,
{
    Work {
        id: WorkId::Cff,
        reads: Access::Unknown,
        writes: Access::Variants(vec![WorkId::Cff]),
        also_completes: Vec::new(),
    }
}

/// The job that makes a `post` table.
pub fn create_post_work() -> (r: Work)
    ensures
        r.id == WorkId::Post,
        r.reads.variants() == Some(
            seq![WorkId::StaticMetadata, WorkId::GlyphOrder, WorkId::GlobalMetrics],
        ),
        r.writes.variants() == Some(seq![WorkId::Post]),
        r.also_completes@.len() == 0,
{
    Work {
        id: WorkId::Post,
        reads: Access::Variants(
            vec![WorkId::StaticMetadata, WorkId::GlyphOrder, WorkId::GlobalMetrics],
        ),
        writes: Access::Variants(vec![WorkId::Post]),
        also_completes: Vec::new(),
    }
}

/// The job that makes the vertical metrics. Bounds come from `glyf` or from
/// `CFF `, whichever the font has.
pub fn create_vertical_metrics_work() -> (r: Work)
    ensures
        r.id == WorkId::Vmtx,
        r.reads.variants() == Some(
            seq![
                WorkId::GlobalMetrics,
                WorkId::GlyphOrder,
                WorkId::AllGlyphs,
                WorkId::AllGlyfFragments,
                WorkId::Glyf,
                WorkId::Cff,
                WorkId::ExtraFeaTables,
            ],
        ),
        r.writes.variants() == Some(seq![WorkId::Vmtx, WorkId::Vhea, WorkId::Vorg]),
        r.also_completes@ == seq![WorkId::Vhea, WorkId::Vorg],
{
    Work {
        id: WorkId::Vmtx,
        reads: Access::Variants(
            vec![
                WorkId::GlobalMetrics,
                WorkId::GlyphOrder,
                WorkId::AllGlyphs,
                WorkId::AllGlyfFragments,
                WorkId::Glyf,
                WorkId::Cff,
                WorkId::ExtraFeaTables,
            ],
        ),
        writes: Access::Variants(vec![WorkId::Vmtx, WorkId::Vhea, WorkId::Vorg]),
        also_completes: vec![WorkId::Vhea, WorkId::Vorg],
    }
}

} // verus!
