//! Handling of custom methods.

use vstd::prelude::*;
use vstd::string::StringSliceAdditionalSpecFns;
use crate::text::{Position, Range};

verus! {

/// The manifest text of a new project with the given name.
pub open spec fn manifest_template_text(project_name: Seq<char>) -> Seq<char> {
    "# Basic information about this project\n[content]\nname = \""@ + project_name
        + "\"\nversion = \"1.0.0\"\nauthors = []\ngame_version = \"4.04\"\n\n# Any dependencies that this project might need\n[dependencies]\ncontent0 = true\n\n# For details check the manual\n# https://spontancombust.github.io/witcherscript-ide/user-manual/project-manifest/\n"@
}

/// Text of the manifest of a new project, and the range of the project's
/// name in it (on the third line, after `name = "`, as long as the name's
/// UTF-8 encoding).
pub fn manifest_template(project_name: &str) -> (r: (String, Range))
    requires
        project_name.spec_bytes().len() + 8 <= u32::MAX,
    ensures
        r.0@ == manifest_template_text(project_name@),
        r.1.start.line == 2,
        r.1.start.character == 8,
        r.1.end.line == 2,
        r.1.end.character == 8 + project_name.spec_bytes().len(),
{
    let mut text = String::from_str("# Basic information about this project\n[content]\nname = \"");
    text.append(project_name);
    text.append("\"\nversion = \"1.0.0\"\nauthors = []\ngame_version = \"4.04\"\n\n# Any dependencies that this project might need\n[dependencies]\ncontent0 = true\n\n# For details check the manual\n# https://spontancombust.github.io/witcherscript-ide/user-manual/project-manifest/\n");
    let len = project_name.len();
    let end = 8 + len as u32;
    let range = Range::new(Position::new(2, 8), Position::new(2, end));
    (text, range)
}

/// The first entry of a manifest's `[dependencies]` table when the new
/// project depends on the vanilla content: the table's header line followed
/// by `content0 = true`.
pub open spec fn vanilla_dependency_entry() -> Seq<char> {
    seq![
        '\n', '[', 'd', 'e', 'p', 'e', 'n', 'd', 'e', 'n', 'c', 'i', 'e', 's', ']', '\n',
        'c', 'o', 'n', 't', 'e', 'n', 't', '0', ' ', '=', ' ', 't', 'r', 'u', 'e', '\n',
    ]
}

/// A new project depends on the vanilla content: whatever its name, the
/// template's `[dependencies]` table starts with `content0 = true`.
pub proof fn lemma_template_depends_on_vanilla(project_name: Seq<char>)
    ensures
        exists|i: int|
            0 <= i && i + vanilla_dependency_entry().len() <= manifest_template_text(project_name).len()
                && #[trigger] manifest_template_text(project_name).subrange(i, i + vanilla_dependency_entry().len())
                == vanilla_dependency_entry(),
{
    reveal_strlit("# Basic information about this project\n[content]\nname = \"");
    reveal_strlit("\"\nversion = \"1.0.0\"\nauthors = []\ngame_version = \"4.04\"\n\n# Any dependencies that this project might need\n[dependencies]\ncontent0 = true\n\n# For details check the manual\n# https://spontancombust.github.io/witcherscript-ide/user-manual/project-manifest/\n");
    let head = "# Basic information about this project\n[content]\nname = \""@;
    let tail = "\"\nversion = \"1.0.0\"\nauthors = []\ngame_version = \"4.04\"\n\n# Any dependencies that this project might need\n[dependencies]\ncontent0 = true\n\n# For details check the manual\n# https://spontancombust.github.io/witcherscript-ide/user-manual/project-manifest/\n"@;
    let text = manifest_template_text(project_name);
    assert(text == head + project_name + tail);
    let i: int = (head.len() + project_name.len() + 103) as int;
    assert(tail.subrange(103, 135) =~= vanilla_dependency_entry());
    assert(text.subrange(i, i + 32) =~= tail.subrange(103, 135));
}

} // verus!
