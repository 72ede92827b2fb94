//! The shader-source file format: one text whose lines are split into a
//! vertex shader and a fragment shader by `#shader` marker lines.
//!
//! A line reading `#shader vertex` or `#shader fragment` switches which
//! shader the following lines belong to; text starts in the vertex
//! shader. Every other line is appended to the current shader with a
//! newline. Reading the file is the embedding application's part; the
//! split itself is pure.

use vstd::prelude::*;
use vstd::string::StringExecFns;

verus! {

/// The two shader texts of one program source.
pub struct ShaderProgramSource {
    pub vertex_shader: String,
    pub fragment_shader: String,
}

impl ShaderProgramSource {
    /// A source with both shaders empty.
    pub fn empty() -> (source: ShaderProgramSource)
        ensures
            source.vertex_shader@ == Seq::<char>::empty(),
            source.fragment_shader@ == Seq::<char>::empty(),
    {
        let source = ShaderProgramSource {
            vertex_shader: String::from_str(""),
            fragment_shader: String::from_str(""),
        };
        proof {
            reveal_strlit("");
            assert(source.vertex_shader@ =~= Seq::<char>::empty());
        }
        source
    }
}

/// What the split owes: the vertex and fragment texts of the lines from
/// position `from` on, entered in vertex mode if `vertex_mode`.
pub open spec fn parse_from(lines: Seq<Seq<char>>, from: int, vertex_mode: bool) -> (Seq<char>, Seq<
    char,
>)
    decreases lines.len() - from,
{
    if from < 0 || from >= lines.len() {
        (Seq::empty(), Seq::empty())
    } else if lines[from] == "#shader vertex"@ {
        parse_from(lines, from + 1, true)
    } else if lines[from] == "#shader fragment"@ {
        parse_from(lines, from + 1, false)
    } else {
        let rest = parse_from(lines, from + 1, vertex_mode);
        if vertex_mode {
            (lines[from] + seq!['\n'] + rest.0, rest.1)
        } else {
            (rest.0, lines[from] + seq!['\n'] + rest.1)
        }
    }
}

/// The text views of a list of line strings.
pub open spec fn line_views(lines: Seq<String>) -> Seq<Seq<char>> {
    lines.map_values(|line: String| line@)
}

/// Splits a shader file's lines into the vertex and the fragment shader.
pub fn parse_shader(lines: &Vec<String>) -> (source: ShaderProgramSource)
    ensures
        (source.vertex_shader@, source.fragment_shader@) == parse_from(line_views(lines@), 0, true),
{
    let vertex_marker: String = String::from_str("#shader vertex");
    let fragment_marker: String = String::from_str("#shader fragment");
    let mut source = ShaderProgramSource::empty();
    let mut vertex_mode = true;

    let ghost views = line_views(lines@);
    let count = lines.len();
    let mut j: usize = 0;
    while j < count
        invariant
            j <= count,
            count == lines@.len(),
            views == line_views(lines@),
            views.len() == count,
            vertex_marker@ == "#shader vertex"@,
            fragment_marker@ == "#shader fragment"@,
            parse_from(views, 0, true).0 == source.vertex_shader@ + parse_from(
                views,
                j as int,
                vertex_mode,
            ).0,
            parse_from(views, 0, true).1 == source.fragment_shader@ + parse_from(
                views,
                j as int,
                vertex_mode,
            ).1,
        decreases count - j,
    {
        let ghost pre_vertex = source.vertex_shader@;
        let ghost pre_fragment = source.fragment_shader@;
        let ghost pre_mode = vertex_mode;
        let line = &lines[j];
        proof {
            assert(views[j as int] == lines@[j as int]@);
        }
        if *line == vertex_marker {
            vertex_mode = true;
        } else if *line == fragment_marker {
            vertex_mode = false;
        } else {
            if vertex_mode {
                source.vertex_shader.append(line.as_str());
                source.vertex_shader.append("\n");
                proof {
                    reveal_strlit("\n");
                    assert("\n"@ =~= seq!['\n']);
                    assert(source.vertex_shader@ =~= pre_vertex + (views[j as int] + seq!['\n']));
                }
            } else {
                source.fragment_shader.append(line.as_str());
                source.fragment_shader.append("\n");
                proof {
                    reveal_strlit("\n");
                    assert("\n"@ =~= seq!['\n']);
                    assert(source.fragment_shader@ =~= pre_fragment + (views[j as int] + seq!['\n']));
                }
            }
        }
        proof {
            let here = views[j as int];
            if here == "#shader vertex"@ || here == "#shader fragment"@ {
                assert(parse_from(views, j as int, pre_mode).0 == parse_from(
                    views,
                    j + 1,
                    vertex_mode,
                ).0);
                assert(parse_from(views, j as int, pre_mode).1 == parse_from(
                    views,
                    j + 1,
                    vertex_mode,
                ).1);
            } else if pre_mode {
                assert(parse_from(views, j as int, pre_mode).0 == here + seq!['\n'] + parse_from(
                    views,
                    j + 1,
                    pre_mode,
                ).0);
                assert(pre_vertex + (here + seq!['\n'] + parse_from(views, j + 1, pre_mode).0)
                    =~= (pre_vertex + (here + seq!['\n'])) + parse_from(views, j + 1, pre_mode).0);
                assert(source.vertex_shader@ == pre_vertex + (here + seq!['\n']));
            } else {
                assert(parse_from(views, j as int, pre_mode).1 == here + seq!['\n'] + parse_from(
                    views,
                    j + 1,
                    pre_mode,
                ).1);
                assert(pre_fragment + (here + seq!['\n'] + parse_from(views, j + 1, pre_mode).1)
                    =~= (pre_fragment + (here + seq!['\n'])) + parse_from(views, j + 1, pre_mode).1);
                assert(source.fragment_shader@ == pre_fragment + (here + seq!['\n']));
            }
        }
        j += 1;
    }
    proof {
        assert(parse_from(views, count as int, vertex_mode) == (
            Seq::<char>::empty(),
            Seq::<char>::empty(),
        ));
        assert(source.vertex_shader@ + Seq::<char>::empty() =~= source.vertex_shader@);
        assert(source.fragment_shader@ + Seq::<char>::empty() =~= source.fragment_shader@);
    }
    source
}

} // verus!
