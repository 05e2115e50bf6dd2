//! The identifier table builder: metadata sidecar files are scanned for
//! their `guid: ` line, and each identifier found is mapped to the
//! normalized output directory of the shader the metadata describes.

use vstd::prelude::*;
use vstd::string::*;

use crate::shaders::{join_path, normalized_name, spec_shader_dest};
use crate::text::{
    find_char_from, find_from, find_prefixed_line, first_prefixed_line, lemma_find_from,
    lemma_first_prefixed_line_from, spec_ends_with, spec_line_start, spec_trim, starts_with_at,
    str_ends_with, str_eq, trim_range,
};
use crate::{SourceFile, Warning, WarningView};

verus! {

/// The identifier a metadata text declares: the remainder of its first line
/// beginning with `guid: `, trimmed of surrounding whitespace — or nothing,
/// when no line carries that prefix.
pub open spec fn spec_get_guid(s: Seq<char>) -> Option<Seq<char>> {
    match first_prefixed_line(s, "guid: "@) {
        None => None,
        Some(i) => Some(
            spec_trim(
                s.subrange(i + "guid: "@.len(), find_from(s, '\n', i + "guid: "@.len())),
            ),
        ),
    }
}

/// Extracts the identifier declared in a metadata text, if any line of it
/// begins with `guid: `.
pub fn get_guid(text: &str) -> (r: Option<String>)
    ensures
        r is Some <==> spec_get_guid(text@) is Some,
        r is Some ==> r.unwrap()@ == spec_get_guid(text@).unwrap(),
{
    match find_prefixed_line(text, "guid: ") {
        None => None,
        Some(i) => {
            proof {
                lemma_first_prefixed_line_from(text@, "guid: "@, 0);
            }
            let plen = "guid: ".unicode_len();
            let e = find_char_from(text, '\n', i + plen);
            proof {
                lemma_find_from(text@, '\n', i as int + plen as int);
            }
            Some(trim_range(text, i + plen, e))
        },
    }
}

/// The extraction law: no identifier comes back exactly when no line of the
/// text begins with `guid: `, and otherwise the value is read from the
/// first such line — wherever other near-matches stand in the text.
pub proof fn lemma_get_guid_first_line(s: Seq<char>)
    ensures
        spec_get_guid(s) is None <==> (forall|k: int|
            0 <= k <= s.len() ==> !(spec_line_start(s, k) && starts_with_at(s, "guid: "@, k))),
        spec_get_guid(s) is Some ==> ({
            let i = first_prefixed_line(s, "guid: "@).unwrap();
            &&& spec_line_start(s, i)
            &&& starts_with_at(s, "guid: "@, i)
            &&& forall|k: int|
                0 <= k < i ==> !(spec_line_start(s, k) && starts_with_at(s, "guid: "@, k))
            &&& spec_get_guid(s).unwrap() == spec_trim(
                s.subrange(i + "guid: "@.len(), find_from(s, '\n', i + "guid: "@.len())),
            )
        }),
{
    lemma_first_prefixed_line_from(s, "guid: "@, 0);
}

/// `name` names a metadata sidecar file.
pub open spec fn spec_is_meta(name: Seq<char>) -> bool {
    spec_ends_with(name, ".meta"@)
}

/// The mapping a sequence of insertions builds up, a later insertion
/// overwriting an earlier one with the same key.
pub open spec fn table_view(es: Seq<(String, String)>) -> Map<Seq<char>, Seq<char>>
    decreases es.len(),
{
    if es.len() == 0 {
        Map::empty()
    } else {
        table_view(es.drop_last()).insert(es.last().0@, es.last().1@)
    }
}

/// The identifier table: external identifiers mapped to the output directory
/// of the shader whose metadata declared them.
pub struct GuidTable {
    entries: Vec<(String, String)>,
}

impl View for GuidTable {
    type V = Map<Seq<char>, Seq<char>>;

    closed spec fn view(&self) -> Map<Seq<char>, Seq<char>> {
        table_view(self.entries@)
    }
}

impl GuidTable {
    /// An empty table.
    pub fn new() -> (r: Self)
        ensures
            r@ == Map::<Seq<char>, Seq<char>>::empty(),
    {
        GuidTable { entries: Vec::new() }
    }

    /// Maps `guid` to `path`, replacing any earlier mapping of `guid`.
    pub fn insert(&mut self, guid: String, path: String)
        ensures
            final(self)@ == old(self)@.insert(guid@, path@),
    {
        let ghost olde = self.entries@;
        self.entries.push((guid, path));
        proof {
            assert(self.entries@.drop_last() =~= olde);
        }
    }

    /// The path mapped for `guid`, if the table holds one.
    pub fn lookup(&self, guid: &str) -> (r: Option<String>)
        ensures
            r is Some <==> self@.contains_key(guid@),
            r is Some ==> r.unwrap()@ == self@[guid@],
    {
        let n = self.entries.len();
        let mut i: usize = n;
        proof {
            assert(self.entries@.subrange(0, n as int) =~= self.entries@);
        }
        loop
            invariant
                0 <= i <= n,
                n == self.entries.len(),
                table_view(self.entries@).contains_key(guid@) == table_view(
                    self.entries@.subrange(0, i as int),
                ).contains_key(guid@),
                table_view(self.entries@).contains_key(guid@) ==> table_view(self.entries@)[guid@]
                    == table_view(self.entries@.subrange(0, i as int))[guid@],
            decreases i,
        {
            if i == 0 {
                proof {
                    assert(self.entries@.subrange(0, 0) =~= Seq::<(String, String)>::empty());
                }
                return None;
            }
            let pair = &self.entries[i - 1];
            proof {
                let pre = self.entries@.subrange(0, i as int);
                assert(pre.drop_last() =~= self.entries@.subrange(0, i as int - 1));
                assert(pre.last() == self.entries@[i as int - 1]);
            }
            if str_eq(pair.0.as_str(), guid) {
                return Some(pair.1.clone());
            }
            i = i - 1;
        }
    }
}

/// The table the builder produces from a metadata directory listing: each
/// metadata file declaring an identifier maps it to the normalized output
/// directory of its shader, later files overwriting earlier ones.
pub open spec fn spec_guid_table(files: Seq<SourceFile>, root: Seq<char>) -> Map<
    Seq<char>,
    Seq<char>,
>
    decreases files.len(),
{
    if files.len() == 0 {
        Map::empty()
    } else {
        let prev = spec_guid_table(files.drop_last(), root);
        let f = files.last();
        if spec_is_meta(f.name@) && spec_get_guid(f.content@) is Some {
            prev.insert(spec_get_guid(f.content@).unwrap(), spec_shader_dest(root, f.name@))
        } else {
            prev
        }
    }
}

/// The warnings the builder reports: one per metadata file without an
/// identifier line, in listing order.
pub open spec fn spec_meta_warnings(files: Seq<SourceFile>) -> Seq<WarningView>
    decreases files.len(),
{
    if files.len() == 0 {
        Seq::empty()
    } else {
        let prev = spec_meta_warnings(files.drop_last());
        let f = files.last();
        if spec_is_meta(f.name@) && spec_get_guid(f.content@) is None {
            prev.push(WarningView::MetaMissingGuid { file: f.name@ })
        } else {
            prev
        }
    }
}

/// Of two metadata files declaring the same identifier, the one processed
/// last fixes the mapping: whatever files came before, after processing `f`
/// its identifier maps to `f`'s output directory.
pub proof fn lemma_last_writer_wins(files: Seq<SourceFile>, f: SourceFile, root: Seq<char>)
    requires
        spec_is_meta(f.name@),
        spec_get_guid(f.content@) is Some,
    ensures
        spec_guid_table(files.push(f), root).contains_key(spec_get_guid(f.content@).unwrap()),
        spec_guid_table(files.push(f), root)[spec_get_guid(f.content@).unwrap()]
            == spec_shader_dest(root, f.name@),
{
    assert(files.push(f).drop_last() =~= files);
    assert(files.push(f).last() == f);
}

/// Builds the identifier table from a directory listing: every metadata
/// file's identifier is mapped to its shader's output directory under
/// `output_root`, and each metadata file lacking an identifier earns a
/// warning instead.
pub fn build_guid_table(files: &Vec<SourceFile>, output_root: &str) -> (r: (GuidTable, Vec<
    Warning,
>))
    ensures
        r.0@ == spec_guid_table(files@, output_root@),
        r.1@.map_values(|w: Warning| w@) == spec_meta_warnings(files@),
{
    let mut table = GuidTable::new();
    let mut warnings: Vec<Warning> = Vec::new();
    let mut i: usize = 0;
    proof {
        assert(files@.subrange(0, 0) =~= Seq::<SourceFile>::empty());
        assert(warnings@.map_values(|w: Warning| w@) =~= Seq::<WarningView>::empty());
    }
    while i < files.len()
        invariant
            0 <= i <= files.len(),
            table@ == spec_guid_table(files@.subrange(0, i as int), output_root@),
            warnings@.map_values(|w: Warning| w@) == spec_meta_warnings(
                files@.subrange(0, i as int),
            ),
        decreases files.len() - i,
    {
        let f = &files[i];
        proof {
            assert(files@.subrange(0, i as int + 1).drop_last() =~= files@.subrange(0, i as int));
            assert(files@.subrange(0, i as int + 1).last() == files@[i as int]);
        }
        if str_ends_with(f.name.as_str(), ".meta") {
            match get_guid(f.content.as_str()) {
                None => {
                    let w = Warning::MetaMissingGuid { file: f.name.clone() };
                    proof {
                        assert((warnings@.push(w)).map_values(|x: Warning| x@) =~= warnings@
                            .map_values(|x: Warning| x@).push(w@));
                    }
                    warnings.push(w);
                },
                Some(g) => {
                    let base_end = find_char_from(f.name.as_str(), '.', 0);
                    proof {
                        lemma_find_from(f.name@, '.', 0);
                    }
                    let base = f.name.as_str().substring_char(0, base_end);
                    let norm = normalized_name(base);
                    let path = join_path(output_root, norm.as_str());
                    table.insert(g, path);
                },
            }
        }
        i = i + 1;
    }
    proof {
        assert(files@.subrange(0, files@.len() as int) =~= files@);
    }
    (table, warnings)
}

} // verus!
