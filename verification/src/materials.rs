//! The material router: each material file names the shader it depends on by
//! an external identifier; the router resolves that identifier through the
//! identifier table and decides where the material and its metadata sidecar
//! are to be copied.

use vstd::prelude::*;
use vstd::string::*;

use crate::guid::{build_guid_table, spec_guid_table, spec_meta_warnings, GuidTable};
use crate::text::{
    find_char_from, find_from, find_prefixed_line, first_prefixed_line, lemma_find_from,
    lemma_first_prefixed_line_from, spec_ends_with, str_ends_with,
};
use crate::{SourceFile, Warning, WarningView};

verus! {

/// The identifier a material references: on the first line beginning with
/// the shader-reference prefix, the text after the prefix up to the next
/// comma or, failing a comma, up to the line's end — or nothing, when no
/// line carries the prefix.
pub open spec fn spec_material_guid(s: Seq<char>) -> Option<Seq<char>> {
    let p = "  m_Shader: {fileID: 4800000, guid: "@;
    match first_prefixed_line(s, p) {
        None => None,
        Some(i) => {
            let vstart = i + p.len();
            let e0 = find_from(s, '\n', vstart);
            let e = if e0 < s.len() && e0 > vstart && s[e0 - 1] == '\r' {
                e0 - 1
            } else {
                e0
            };
            let c = find_from(s, ',', vstart);
            Some(s.subrange(vstart, if c < e { c } else { e }))
        },
    }
}

/// Extracts the shader identifier a material text references, if any line of
/// it begins with the shader-reference prefix.
pub fn get_material_guid(text: &str) -> (r: Option<String>)
    ensures
        r is Some <==> spec_material_guid(text@) is Some,
        r is Some ==> r.unwrap()@ == spec_material_guid(text@).unwrap(),
{
    match find_prefixed_line(text, "  m_Shader: {fileID: 4800000, guid: ") {
        None => None,
        Some(i) => {
            proof {
                lemma_first_prefixed_line_from(text@, "  m_Shader: {fileID: 4800000, guid: "@, 0);
            }
            let n = text.unicode_len();
            let plen = "  m_Shader: {fileID: 4800000, guid: ".unicode_len();
            let vstart = i + plen;
            let e0 = find_char_from(text, '\n', vstart);
            proof {
                lemma_find_from(text@, '\n', vstart as int);
            }
            let e = if e0 < n && e0 > vstart && text.get_char(e0 - 1) == '\r' {
                e0 - 1
            } else {
                e0
            };
            let c = find_char_from(text, ',', vstart);
            proof {
                lemma_find_from(text@, ',', vstart as int);
            }
            let end = if c < e {
                c
            } else {
                e
            };
            Some(text.substring_char(vstart, end).to_owned())
        },
    }
}

/// `name` names a material file.
pub open spec fn spec_is_mat(name: Seq<char>) -> bool {
    spec_ends_with(name, ".mat"@)
}

/// What the router decides for one material: the file and its metadata
/// sidecar, copied under their own names into the resolved directory.
#[derive(Debug, PartialEq)]
pub struct CopyAction {
    pub file_name: String,
    pub meta_name: String,
    pub dest_dir: String,
}

/// The mathematical shadow of a `CopyAction`.
pub struct CopyActionView {
    pub file_name: Seq<char>,
    pub meta_name: Seq<char>,
    pub dest_dir: Seq<char>,
}

impl View for CopyAction {
    type V = CopyActionView;

    open spec fn view(&self) -> CopyActionView {
        CopyActionView {
            file_name: self.file_name@,
            meta_name: self.meta_name@,
            dest_dir: self.dest_dir@,
        }
    }
}

/// The router's decisions over a material directory listing, in listing
/// order: a copy for every material whose identifier the table resolves, and
/// a warning for every material without an identifier or with an unknown
/// one.
pub open spec fn spec_material_plan(mats: Seq<SourceFile>, table: Map<Seq<char>, Seq<char>>) -> (
    Seq<CopyActionView>,
    Seq<WarningView>,
)
    decreases mats.len(),
{
    if mats.len() == 0 {
        (Seq::empty(), Seq::empty())
    } else {
        let prev = spec_material_plan(mats.drop_last(), table);
        let f = mats.last();
        if !spec_is_mat(f.name@) {
            prev
        } else {
            match spec_material_guid(f.content@) {
                None => (prev.0, prev.1.push(WarningView::MaterialMissingGuid { file: f.name@ })),
                Some(g) => if table.contains_key(g) {
                    (
                        prev.0.push(
                            CopyActionView {
                                file_name: f.name@,
                                meta_name: f.name@ + ".meta"@,
                                dest_dir: table[g],
                            },
                        ),
                        prev.1,
                    )
                } else {
                    (prev.0, prev.1.push(WarningView::UnknownGuid { file: f.name@, guid: g }))
                },
            }
        }
    }
}

/// Routes the materials of a directory listing through an already-built
/// identifier table.
pub fn route_materials(materials: &Vec<SourceFile>, table: &GuidTable) -> (r: (Vec<CopyAction>, Vec<
    Warning,
>))
    ensures
        r.0@.map_values(|a: CopyAction| a@) == spec_material_plan(materials@, table@).0,
        r.1@.map_values(|w: Warning| w@) == spec_material_plan(materials@, table@).1,
{
    let mut acts: Vec<CopyAction> = Vec::new();
    let mut warnings: Vec<Warning> = Vec::new();
    let mut i: usize = 0;
    proof {
        assert(materials@.subrange(0, 0) =~= Seq::<SourceFile>::empty());
        assert(acts@.map_values(|a: CopyAction| a@) =~= Seq::<CopyActionView>::empty());
        assert(warnings@.map_values(|w: Warning| w@) =~= Seq::<WarningView>::empty());
    }
    while i < materials.len()
        invariant
            0 <= i <= materials.len(),
            acts@.map_values(|a: CopyAction| a@) == spec_material_plan(
                materials@.subrange(0, i as int),
                table@,
            ).0,
            warnings@.map_values(|w: Warning| w@) == spec_material_plan(
                materials@.subrange(0, i as int),
                table@,
            ).1,
        decreases materials.len() - i,
    {
        let f = &materials[i];
        proof {
            assert(materials@.subrange(0, i as int + 1).drop_last() =~= materials@.subrange(
                0,
                i as int,
            ));
            assert(materials@.subrange(0, i as int + 1).last() == materials@[i as int]);
        }
        if str_ends_with(f.name.as_str(), ".mat") {
            match get_material_guid(f.content.as_str()) {
                None => {
                    let w = Warning::MaterialMissingGuid { file: f.name.clone() };
                    proof {
                        assert((warnings@.push(w)).map_values(|x: Warning| x@) =~= warnings@
                            .map_values(|x: Warning| x@).push(w@));
                    }
                    warnings.push(w);
                },
                Some(g) => {
                    match table.lookup(g.as_str()) {
                        Some(dest) => {
                            let a = CopyAction {
                                file_name: f.name.clone(),
                                meta_name: f.name.clone().concat(".meta"),
                                dest_dir: dest,
                            };
                            proof {
                                assert((acts@.push(a)).map_values(|x: CopyAction| x@) =~= acts@
                                    .map_values(|x: CopyAction| x@).push(a@));
                            }
                            acts.push(a);
                        },
                        None => {
                            let w = Warning::UnknownGuid { file: f.name.clone(), guid: g };
                            proof {
                                assert((warnings@.push(w)).map_values(|x: Warning| x@) =~= warnings@
                                    .map_values(|x: Warning| x@).push(w@));
                            }
                            warnings.push(w);
                        },
                    }
                },
            }
        }
        i = i + 1;
    }
    proof {
        assert(materials@.subrange(0, materials@.len() as int) =~= materials@);
    }
    (acts, warnings)
}

/// Decides the whole routing pass in one call: the identifier table is
/// built from the shader directory's metadata listing,
/// then every material of the material listing is routed through it. The
/// copies to perform come back beside the warnings of both phases, the
/// table builder's first.
pub fn copy_materials_to_shader(
    shader_files: &Vec<SourceFile>,
    output_root: &str,
    materials: &Vec<SourceFile>,
) -> (r: (Vec<CopyAction>, Vec<Warning>))
    ensures
        r.0@.map_values(|a: CopyAction| a@) == spec_material_plan(
            materials@,
            spec_guid_table(shader_files@, output_root@),
        ).0,
        r.1@.map_values(|w: Warning| w@) == spec_meta_warnings(shader_files@) + spec_material_plan(
            materials@,
            spec_guid_table(shader_files@, output_root@),
        ).1,
{
    let (table, mut warnings) = build_guid_table(shader_files, output_root);
    let (acts, mut mat_warnings) = route_materials(materials, &table);
    let ghost w0 = warnings@;
    let ghost w1 = mat_warnings@;
    warnings.append(&mut mat_warnings);
    proof {
        assert(warnings@.map_values(|w: Warning| w@) =~= w0.map_values(|w: Warning| w@)
            + w1.map_values(|w: Warning| w@));
    }
    (acts, warnings)
}

} // verus!
