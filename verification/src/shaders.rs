//! The shader restructurer: shader base names are normalized into nested
//! directory paths, and each shader source gains a version suffix inside its
//! first-line `Shader "<name>"` declaration.

use vstd::prelude::*;
use vstd::string::*;

use crate::text::{
    find_char_from, find_from, lemma_find_from, lemma_find_from_subrange, spec_ends_with,
    str_ends_with,
};
use crate::SourceFile;

verus! {

/// The normalization rule shared by the whole pipeline: every underscore of a
/// name becomes the path separator, and all other characters stay.
pub open spec fn spec_normalized(s: Seq<char>) -> Seq<char> {
    Seq::new(s.len(), |i: int| if s[i] == '_' { '/' } else { s[i] })
}

/// Normalization leaves a name without underscores unchanged.
pub proof fn lemma_normalized_no_underscore(s: Seq<char>)
    requires
        forall|i: int| 0 <= i < s.len() ==> s[i] != '_',
    ensures
        spec_normalized(s) == s,
{
    assert(spec_normalized(s) =~= s);
}

/// Normalization maps the parts of a concatenation independently.
pub proof fn lemma_normalized_concat(a: Seq<char>, b: Seq<char>)
    ensures
        spec_normalized(a + b) == spec_normalized(a) + spec_normalized(b),
{
    assert(spec_normalized(a + b) =~= spec_normalized(a) + spec_normalized(b));
}

/// Two underscore-free segments joined by an underscore normalize to the
/// same segments joined by the path separator.
pub proof fn lemma_normalized_joins_segments(a: Seq<char>, b: Seq<char>)
    requires
        forall|i: int| 0 <= i < a.len() ==> a[i] != '_',
        forall|i: int| 0 <= i < b.len() ==> b[i] != '_',
    ensures
        spec_normalized(a + seq!['_'] + b) == a + seq!['/'] + b,
{
    assert(spec_normalized(a + seq!['_'] + b) =~= a + seq!['/'] + b);
}

/// `parts` joined into one name by the single character `sep`.
pub open spec fn spec_join_segments(parts: Seq<Seq<char>>, sep: char) -> Seq<char>
    decreases parts.len(),
{
    if parts.len() == 0 {
        Seq::empty()
    } else if parts.len() == 1 {
        parts[0]
    } else {
        parts[0] + seq![sep] + spec_join_segments(parts.subrange(1, parts.len() as int), sep)
    }
}

/// The normalization law: a name made of underscore-free segments joined by
/// underscores normalizes to the same segments, in the same order, joined
/// by the path separator.
pub proof fn lemma_normalized_joins_all_segments(parts: Seq<Seq<char>>)
    requires
        forall|i: int, j: int|
            0 <= i < parts.len() && 0 <= j < parts[i].len() ==> parts[i][j] != '_',
    ensures
        spec_normalized(spec_join_segments(parts, '_')) == spec_join_segments(parts, '/'),
    decreases parts.len(),
{
    if parts.len() == 0 {
        assert(spec_normalized(Seq::empty()) =~= Seq::<char>::empty());
    } else if parts.len() == 1 {
        lemma_normalized_no_underscore(parts[0]);
    } else {
        let rest = parts.subrange(1, parts.len() as int);
        assert forall|i: int, j: int|
            0 <= i < rest.len() && 0 <= j < rest[i].len() implies rest[i][j] != '_' by {
            assert(rest[i] == parts[i + 1]);
        }
        lemma_normalized_joins_all_segments(rest);
        lemma_normalized_concat(parts[0] + seq!['_'], spec_join_segments(rest, '_'));
        assert(spec_normalized(parts[0] + seq!['_']) =~= parts[0] + seq!['/']);
        assert(spec_normalized(spec_join_segments(parts, '_')) =~= spec_join_segments(parts, '/'));
    }
}

/// Normalizing a second time changes nothing: the first pass leaves no
/// underscore behind.
pub proof fn lemma_normalized_idempotent(s: Seq<char>)
    ensures
        spec_normalized(spec_normalized(s)) == spec_normalized(s),
{
    assert(spec_normalized(spec_normalized(s)) =~= spec_normalized(s));
}

/// The normalized form of `name`: underscores become path separators.
pub fn normalized_name(name: &str) -> (r: String)
    ensures
        r@ == spec_normalized(name@),
{
    let n: usize = name.unicode_len();
    let mut out = String::new();
    let mut i: usize = 0;
    loop
        invariant
            0 <= i <= n,
            n as int == name@.len(),
            out@ == spec_normalized(name@).subrange(0, i as int),
        decreases n - i,
    {
        if i == n {
            proof {
                assert(spec_normalized(name@).subrange(0, n as int) =~= spec_normalized(name@));
            }
            return out;
        }
        let j = find_char_from(name, '_', i);
        proof {
            lemma_find_from(name@, '_', i as int);
        }
        let piece = name.substring_char(i, j);
        out.append(piece);
        proof {
            assert(out@ =~= spec_normalized(name@).subrange(0, j as int));
        }
        if j == n {
            i = j;
        } else {
            out.append("/");
            proof {
                reveal_strlit("/");
                assert(out@ =~= spec_normalized(name@).subrange(0, j as int + 1));
            }
            i = j + 1;
        }
    }
}

/// A line's trailing carriage return, dropped when the line was ended by a
/// newline in the source text.
pub open spec fn strip_cr(line: Seq<char>) -> Seq<char> {
    if line.len() > 0 && line[line.len() - 1] == '\r' {
        line.subrange(0, line.len() - 1)
    } else {
        line
    }
}

/// The decomposition of a text into lines: lines are separated by `'\n'`, a
/// carriage return just before a separator belongs to the separator, and a
/// final separator ends the last line rather than opening an empty one.
pub open spec fn spec_lines(s: Seq<char>) -> Seq<Seq<char>>
    decreases s.len(),
    via spec_lines_decreases
{
    if s.len() == 0 {
        Seq::empty()
    } else {
        let j = find_from(s, '\n', 0);
        if j == s.len() {
            seq![s]
        } else {
            seq![strip_cr(s.subrange(0, j))] + spec_lines(s.subrange(j + 1, s.len() as int))
        }
    }
}

#[via_fn]
proof fn spec_lines_decreases(s: Seq<char>) {
    if s.len() > 0 {
        lemma_find_from(s, '\n', 0);
    }
}

/// The lines of `text`, in order.
pub fn split_lines(text: &str) -> (r: Vec<String>)
    ensures
        r@.map_values(|l: String| l@) == spec_lines(text@),
{
    let n: usize = text.unicode_len();
    let mut r: Vec<String> = Vec::new();
    let mut pos: usize = 0;
    proof {
        assert(text@.subrange(0, n as int) =~= text@);
        assert(r@.map_values(|l: String| l@) =~= Seq::<Seq<char>>::empty());
        assert(Seq::<Seq<char>>::empty() + spec_lines(text@) =~= spec_lines(text@));
    }
    loop
        invariant
            0 <= pos <= n,
            n as int == text@.len(),
            spec_lines(text@) == r@.map_values(|l: String| l@) + spec_lines(
                text@.subrange(pos as int, n as int),
            ),
        decreases n - pos,
    {
        if pos == n {
            proof {
                assert(text@.subrange(pos as int, n as int) =~= Seq::<char>::empty());
                assert(r@.map_values(|l: String| l@) + spec_lines(Seq::<char>::empty()) =~= r@
                    .map_values(|l: String| l@));
            }
            return r;
        }
        let j = find_char_from(text, '\n', pos);
        proof {
            lemma_find_from(text@, '\n', pos as int);
        }
        let line_end: usize;
        let next: usize;
        if j == n {
            line_end = n;
            next = n;
        } else if j > pos && text.get_char(j - 1) == '\r' {
            line_end = j - 1;
            next = j + 1;
        } else {
            line_end = j;
            next = j + 1;
        }
        let line = text.substring_char(pos, line_end).to_owned();
        proof {
            let t = text@.subrange(pos as int, n as int);
            lemma_find_from_subrange(text@, '\n', pos as int);
            if j == n {
                assert(line@ =~= t);
                assert(spec_lines(t) =~= seq![line@]);
            } else {
                assert(t.subrange(0, j as int - pos as int) =~= text@.subrange(
                    pos as int,
                    j as int,
                ));
                assert(strip_cr(text@.subrange(pos as int, j as int)) =~= line@);
                assert(t.subrange(j as int - pos as int + 1, t.len() as int) =~= text@.subrange(
                    next as int,
                    n as int,
                ));
                assert(spec_lines(t) =~= seq![line@] + spec_lines(
                    text@.subrange(next as int, n as int),
                ));
            }
            assert((r@.push(line)).map_values(|l: String| l@) =~= r@.map_values(|l: String| l@)
                + seq![line@]);
            assert(r@.map_values(|l: String| l@) + spec_lines(t) =~= (r@.push(line)).map_values(
                |l: String| l@,
            ) + spec_lines(text@.subrange(next as int, n as int)));
        }
        r.push(line);
        pos = next;
    }
}

/// The tail of a rewritten shader file: every line after the first, each
/// preceded by a newline.
pub open spec fn spec_tail_block(lines: Seq<Seq<char>>) -> Seq<char>
    decreases lines.len(),
{
    if lines.len() == 0 {
        Seq::empty()
    } else {
        seq!['\n'] + lines[0] + spec_tail_block(lines.subrange(1, lines.len() as int))
    }
}

proof fn lemma_tail_block_push(lines: Seq<Seq<char>>, l: Seq<char>)
    ensures
        spec_tail_block(lines.push(l)) == spec_tail_block(lines) + seq!['\n'] + l,
    decreases lines.len(),
{
    let p = lines.push(l);
    if lines.len() == 0 {
        assert(p.subrange(1, p.len() as int) =~= Seq::<Seq<char>>::empty());
        assert(spec_tail_block(p.subrange(1, p.len() as int)) =~= Seq::<char>::empty());
        assert(spec_tail_block(lines) =~= Seq::<char>::empty());
        assert(p[0] == l);
        assert(spec_tail_block(p) =~= spec_tail_block(lines) + seq!['\n'] + l);
    } else {
        assert(p.subrange(1, p.len() as int) =~= lines.subrange(1, lines.len() as int).push(l));
        lemma_tail_block_push(lines.subrange(1, lines.len() as int), l);
        assert(spec_tail_block(p) =~= spec_tail_block(lines) + seq!['\n'] + l);
    }
}

/// Why a shader source could not be rewritten.
#[derive(Debug, PartialEq, Eq, Structural)]
pub enum ShaderError {
    /// The file has no first line.
    EmptyFile,
    /// The first line holds no quote, so no declared name can be found.
    MissingName,
}

/// The rewritten text of a shader source: the declared name of the first
/// line — the text between its first quote and its second quote or, failing
/// a second quote, the line's end — gains `suffix`, the rest of the first
/// line is dropped, and all further lines follow unchanged, joined by
/// newlines. An empty file, or a first line without a quote, is an error.
pub open spec fn spec_rewrite(s: Seq<char>, suffix: Seq<char>) -> Result<Seq<char>, ShaderError> {
    if s.len() == 0 {
        Err(ShaderError::EmptyFile)
    } else {
        let first = spec_lines(s)[0];
        let q1 = find_from(first, '"', 0);
        if q1 == first.len() {
            Err(ShaderError::MissingName)
        } else {
            let q2 = find_from(first, '"', q1 + 1);
            let name = first.subrange(q1 + 1, q2);
            Ok(
                "Shader \""@ + name + suffix + "\""@ + spec_tail_block(
                    spec_lines(s).subrange(1, spec_lines(s).len() as int),
                ),
            )
        }
    }
}

/// Rewrites one shader source: appends `suffix` to the name declared in the
/// first line and reassembles the file.
pub fn add_suffix(content: &str, suffix: &str) -> (r: Result<String, ShaderError>)
    ensures
        ({
            let sp = spec_rewrite(content@, suffix@);
            match r {
                Ok(out) => sp == Ok::<Seq<char>, ShaderError>(out@),
                Err(e) => sp == Err::<Seq<char>, ShaderError>(e),
            }
        }),
{
    let lines = split_lines(content);
    if lines.len() == 0 {
        proof {
            if content@.len() > 0 {
                assert(spec_lines(content@).len() >= 1);
            }
        }
        return Err(ShaderError::EmptyFile);
    }
    proof {
        assert(spec_lines(content@).len() == lines@.len());
        if content@.len() == 0 {
            assert(spec_lines(content@) =~= Seq::<Seq<char>>::empty());
        }
        assert(content@.len() > 0);
        assert(lines@.map_values(|l: String| l@)[0] == lines@[0]@);
    }
    let first = &lines[0];
    let flen: usize = first.as_str().unicode_len();
    let q1 = find_char_from(first.as_str(), '"', 0);
    proof {
        lemma_find_from(first@, '"', 0);
    }
    if q1 == flen {
        return Err(ShaderError::MissingName);
    }
    let q2 = find_char_from(first.as_str(), '"', q1 + 1);
    proof {
        lemma_find_from(first@, '"', q1 as int + 1);
    }
    let name = first.as_str().substring_char(q1 + 1, q2);
    let mut out = "Shader \"".to_owned();
    out.append(name);
    out.append(suffix);
    out.append("\"");
    let ghost head = "Shader \""@ + name@ + suffix@ + "\""@;
    proof {
        assert(out@ =~= head);
        assert(spec_lines(content@).subrange(1, 1) =~= Seq::<Seq<char>>::empty());
        assert(spec_tail_block(spec_lines(content@).subrange(1, 1)) =~= Seq::<char>::empty());
        assert(head + Seq::<char>::empty() =~= head);
        let sl = spec_lines(content@);
        assert(sl[0] == lines@[0]@);
        assert(spec_rewrite(content@, suffix@) == Ok::<Seq<char>, ShaderError>(
            head + spec_tail_block(sl.subrange(1, sl.len() as int)),
        ));
    }
    let mut k: usize = 1;
    loop
        invariant
            1 <= k <= lines.len(),
            lines@.map_values(|l: String| l@) == spec_lines(content@),
            out@ == head + spec_tail_block(spec_lines(content@).subrange(1, k as int)),
            spec_rewrite(content@, suffix@) == Ok::<Seq<char>, ShaderError>(
                head + spec_tail_block(
                    spec_lines(content@).subrange(1, spec_lines(content@).len() as int),
                ),
            ),
        decreases lines.len() - k,
    {
        if k == lines.len() {
            proof {
                let sl = spec_lines(content@);
                assert(sl.subrange(1, k as int) =~= sl.subrange(1, sl.len() as int));
            }
            return Ok(out);
        }
        out.append("\n");
        out.append(lines[k].as_str());
        proof {
            reveal_strlit("\n");
            assert("\n"@ =~= seq!['\n']);
            let sl = spec_lines(content@);
            assert(lines@.map_values(|l: String| l@)[k as int] == lines@[k as int]@);
            assert(sl.subrange(1, k as int + 1) =~= sl.subrange(1, k as int).push(sl[k as int]));
            lemma_tail_block_push(sl.subrange(1, k as int), sl[k as int]);
            assert(out@ =~= head + spec_tail_block(sl.subrange(1, k as int + 1)));
        }
        k = k + 1;
    }
}

/// `name` names a shader source file.
pub open spec fn spec_is_shader(name: Seq<char>) -> bool {
    spec_ends_with(name, ".shader"@)
}

/// The base name of a file: the text before its first dot, or the whole
/// name when it has no dot.
pub open spec fn spec_base_name(name: Seq<char>) -> Seq<char> {
    name.subrange(0, find_from(name, '.', 0))
}

/// `root` and `name` joined into one path, with a single separator between
/// them.
pub open spec fn spec_join(root: Seq<char>, name: Seq<char>) -> Seq<char> {
    if root.len() == 0 {
        name
    } else if root[root.len() - 1] == '/' {
        root + name
    } else {
        root + "/"@ + name
    }
}

/// The output directory a shader is assigned: its normalized base name
/// joined onto the output root.
pub open spec fn spec_shader_dest(root: Seq<char>, name: Seq<char>) -> Seq<char> {
    spec_join(root, spec_normalized(spec_base_name(name)))
}

/// Joins `name` onto the directory `root`.
pub fn join_path(root: &str, name: &str) -> (r: String)
    ensures
        r@ == spec_join(root@, name@),
{
    let n: usize = root.unicode_len();
    if n == 0 {
        return name.to_owned();
    }
    let mut out = root.to_owned();
    if root.get_char(n - 1) != '/' {
        out.append("/");
    }
    out.append(name);
    out
}

/// What the restructurer decides for one shader file: the rewritten text
/// that replaces the file, and the output directory to create for it.
#[derive(Debug, PartialEq)]
pub struct ShaderAction {
    pub file_name: String,
    pub new_content: String,
    pub out_dir: String,
}

/// The mathematical shadow of a `ShaderAction`.
pub struct ShaderActionView {
    pub file_name: Seq<char>,
    pub new_content: Seq<char>,
    pub out_dir: Seq<char>,
}

impl View for ShaderAction {
    type V = ShaderActionView;

    open spec fn view(&self) -> ShaderActionView {
        ShaderActionView {
            file_name: self.file_name@,
            new_content: self.new_content@,
            out_dir: self.out_dir@,
        }
    }
}

/// The restructurer's decisions over a directory listing, in listing order:
/// one action per shader file, or the first rewrite error.
pub open spec fn spec_shader_plan(
    files: Seq<SourceFile>,
    root: Seq<char>,
    suffix: Seq<char>,
) -> Result<Seq<ShaderActionView>, ShaderError>
    decreases files.len(),
{
    if files.len() == 0 {
        Ok(Seq::empty())
    } else {
        let prev = spec_shader_plan(files.drop_last(), root, suffix);
        let f = files.last();
        if !spec_is_shader(f.name@) {
            prev
        } else {
            match prev {
                Err(e) => Err(e),
                Ok(acts) => match spec_rewrite(f.content@, suffix) {
                    Err(e) => Err(e),
                    Ok(c) => Ok(
                        acts.push(
                            ShaderActionView {
                                file_name: f.name@,
                                new_content: c,
                                out_dir: spec_shader_dest(root, f.name@),
                            },
                        ),
                    ),
                },
            }
        }
    }
}

proof fn lemma_shader_plan_err_persists(
    files: Seq<SourceFile>,
    root: Seq<char>,
    suffix: Seq<char>,
    i: int,
)
    requires
        0 <= i <= files.len(),
        spec_shader_plan(files.subrange(0, i), root, suffix) is Err,
    ensures
        spec_shader_plan(files, root, suffix) == spec_shader_plan(files.subrange(0, i), root, suffix),
    decreases files.len() - i,
{
    if i < files.len() {
        assert(files.subrange(0, i + 1).drop_last() =~= files.subrange(0, i));
        assert(files.subrange(0, i + 1).last() == files[i]);
        lemma_shader_plan_err_persists(files, root, suffix, i + 1);
    } else {
        assert(files.subrange(0, files.len() as int) =~= files);
    }
}

/// Decides the whole restructuring pass: for every shader file of the input
/// listing, in order, the rewritten text and the output directory to create
/// under `output_root`; other files are passed over. The first file whose
/// first line cannot be parsed aborts the pass with its error.
pub fn create_subfolders_and_add_suffix(
    files: &Vec<SourceFile>,
    output_root: &str,
    suffix: &str,
) -> (r: Result<Vec<ShaderAction>, ShaderError>)
    ensures
        ({
            let sp = spec_shader_plan(files@, output_root@, suffix@);
            match r {
                Ok(acts) => sp == Ok::<Seq<ShaderActionView>, ShaderError>(
                    acts@.map_values(|a: ShaderAction| a@),
                ),
                Err(e) => sp == Err::<Seq<ShaderActionView>, ShaderError>(e),
            }
        }),
{
    let mut acts: Vec<ShaderAction> = Vec::new();
    let mut i: usize = 0;
    proof {
        assert(files@.subrange(0, 0) =~= Seq::<SourceFile>::empty());
        assert(acts@.map_values(|a: ShaderAction| a@) =~= Seq::<ShaderActionView>::empty());
    }
    while i < files.len()
        invariant
            0 <= i <= files.len(),
            spec_shader_plan(files@.subrange(0, i as int), output_root@, suffix@)
                == Ok::<Seq<ShaderActionView>, ShaderError>(
                acts@.map_values(|a: ShaderAction| a@),
            ),
        decreases files.len() - i,
    {
        let f = &files[i];
        proof {
            assert(files@.subrange(0, i as int + 1).drop_last() =~= files@.subrange(0, i as int));
            assert(files@.subrange(0, i as int + 1).last() == files@[i as int]);
        }
        if str_ends_with(f.name.as_str(), ".shader") {
            match add_suffix(f.content.as_str(), suffix) {
                Err(e) => {
                    proof {
                        lemma_shader_plan_err_persists(files@, output_root@, suffix@, i as int + 1);
                    }
                    return Err(e);
                },
                Ok(c) => {
                    let base_end = find_char_from(f.name.as_str(), '.', 0);
                    proof {
                        lemma_find_from(f.name@, '.', 0);
                    }
                    let base = f.name.as_str().substring_char(0, base_end);
                    let norm = normalized_name(base);
                    let dest = join_path(output_root, norm.as_str());
                    let act = ShaderAction {
                        file_name: f.name.clone(),
                        new_content: c,
                        out_dir: dest,
                    };
                    proof {
                        assert((acts@.push(act)).map_values(|a: ShaderAction| a@) =~= acts@
                            .map_values(|a: ShaderAction| a@).push(act@));
                    }
                    acts.push(act);
                },
            }
        }
        i = i + 1;
    }
    proof {
        assert(files@.subrange(0, files@.len() as int) =~= files@);
    }
    Ok(acts)
}

} // verus!
