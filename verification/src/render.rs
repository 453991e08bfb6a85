//! The rendered artifact: the referenced zones' content merged in
//! declaration order, each section annotated with the serial assigned
//! to its reference.
use vstd::prelude::*;
use crate::refs::RefKey;

verus! {

/// One section of the rendered artifact: the reference it came from,
/// the serial assigned to that reference this generation, and the
/// zone content.
#[derive(Clone, Debug)]
pub struct Section {
    pub key: RefKey,
    pub serial: u32,
    pub content: String,
}

impl View for Section {
    type V = ((Seq<char>, Seq<char>), u32, Seq<char>);

    open spec fn view(&self) -> ((Seq<char>, Seq<char>), u32, Seq<char>) {
        (self.key@, self.serial, self.content@)
    }
}

/// The whole artifact: the name of the output object and its sections,
/// in `zone_refs` declaration order. It is always rewritten whole,
/// never patched.
#[derive(Clone, Debug)]
pub struct Artifact {
    pub name: String,
    pub sections: Vec<Section>,
}

/// The merged document the first `n` sections denote: each section's
/// content in order, newline-terminated.
pub open spec fn spec_merged(
    sections: Seq<((Seq<char>, Seq<char>), u32, Seq<char>)>,
    n: int,
) -> Seq<char>
    decreases n,
{
    if n <= 0 {
        Seq::empty()
    } else {
        spec_merged(sections, n - 1) + sections[n - 1].2 + seq!['\n']
    }
}

impl Artifact {
    /// Concatenate the sections into the single output document, in
    /// declaration order, one newline-terminated body per section.
    pub fn merged_content(&self) -> (r: String)
        ensures
            r@ == spec_merged(
                self.sections@.map(|q: int, s: Section| s@),
                self.sections@.len() as int,
            ),
    {
        let ghost sviews = self.sections@.map(|q: int, s: Section| s@);
        let mut out = String::new();
        proof {
            reveal_strlit("\n");
            assert("\n"@ =~= seq!['\n']);
        }
        let mut i: usize = 0;
        while i < self.sections.len()
            invariant
                0 <= i <= self.sections@.len(),
                sviews == self.sections@.map(|q: int, s: Section| s@),
                "\n"@ == seq!['\n'],
                out@ == spec_merged(sviews, i as int),
            decreases self.sections@.len() - i,
        {
            out.append(self.sections[i].content.as_str());
            out.append("\n");
            i += 1;
        }
        out
    }
}

/// The name the artifact is stored under: the spec's override when
/// present, otherwise the `ZoneFile`'s own name.
pub open spec fn spec_artifact_name(
    config_map_name: Option<Seq<char>>,
    own_name: Seq<char>,
) -> Seq<char> {
    match config_map_name {
        Some(n) => n,
        None => own_name,
    }
}

/// Pick the artifact's name from the spec override or the resource's
/// own name.
pub fn artifact_name(config_map_name: &Option<String>, own_name: &String) -> (r: String)
    ensures
        r@ == spec_artifact_name(crate::refs::opt_view(*config_map_name), own_name@),
{
    match config_map_name {
        Some(n) => n.clone(),
        None => own_name.clone(),
    }
}

} // verus!
