//! The agent skills the launcher installs: each a directory name and the
//! contents of its `SKILL.md`, which opens with front matter naming the skill.
use vstd::prelude::*;
use vstd::string::*;

use crate::text::{contains, is_prefix, occurs_at, trim_start};

verus! {

/// One bundled skill: its directory name and the contents of its `SKILL.md`.
#[derive(Debug)]
pub struct Skill {
    pub name: &'static str,
    pub content: &'static str,
}

/// The names of the bundled skills, in order.
pub open spec fn skill_names() -> Seq<Seq<char>> {
    seq!["okf-dev"@, "okf-plan"@, "okf-spec"@]
}

/// A `SKILL.md` opens (after any white space) with front matter, `---`, and
/// declares a `name:`.
pub open spec fn declares_name(content: Seq<char>) -> bool {
    is_prefix("---"@, trim_start(content)) && contains(content, "name:"@)
}

/// The bundled skills: `okf-dev`, `okf-plan` and `okf-spec`, each with a
/// `SKILL.md` that opens with front matter declaring its name.
pub fn skills() -> (r: Vec<Skill>)
    ensures
        r@.len() == skill_names().len(),
        forall|i: int| 0 <= i < r@.len() ==> (#[trigger] r@[i]).name@ == skill_names()[i] && declares_name(r@[i].content@),
{
    let dev = "---\nname: okf-dev\ndescription: Develop the OKF bundle server: the concept model, front matter parsing, rendering, the REST API, live reload and the web UI.\n---\n\n# okf-dev\n\nUse this skill when changing the OKF bundle server itself.\n\n1. Read the concept model and the bundle index before changing a query.\n2. Keep the server read-only: it never writes to the bundle.\n3. Run the tests after every change and add one for each behaviour you add.\n";
    let plan = "---\nname: okf-plan\ndescription: Plan a change to an OKF bundle or to the server that serves it, as a short list of concepts to add, update or retire.\n---\n\n# okf-plan\n\nUse this skill before editing a bundle.\n\n1. Browse the directory tree and the concepts the change touches.\n2. List each concept to add, update or retire, with its concept ID.\n3. Note which `index.md` and `log.md` files need an entry.\n";
    let spec = "---\nname: okf-spec\ndescription: Write OKF concepts: markdown files whose YAML front matter gives a type, a title and the optional trust, staleness and source fields.\n---\n\n# okf-spec\n\nUse this skill when writing or editing a concept.\n\n1. Start the file with front matter: `type` is required, `title` is recommended.\n2. Record who generated the concept and who verified it, and when.\n3. Set `stale_after` when the content should be revisited by a date.\n";
    proof {
        reveal_strlit("okf-dev");
        reveal_strlit("okf-plan");
        reveal_strlit("okf-spec");
        reveal_strlit("---");
        reveal_strlit("name:");
        reveal_strlit("---\nname: okf-dev\ndescription: Develop the OKF bundle server: the concept model, front matter parsing, rendering, the REST API, live reload and the web UI.\n---\n\n# okf-dev\n\nUse this skill when changing the OKF bundle server itself.\n\n1. Read the concept model and the bundle index before changing a query.\n2. Keep the server read-only: it never writes to the bundle.\n3. Run the tests after every change and add one for each behaviour you add.\n");
        reveal_strlit("---\nname: okf-plan\ndescription: Plan a change to an OKF bundle or to the server that serves it, as a short list of concepts to add, update or retire.\n---\n\n# okf-plan\n\nUse this skill before editing a bundle.\n\n1. Browse the directory tree and the concepts the change touches.\n2. List each concept to add, update or retire, with its concept ID.\n3. Note which `index.md` and `log.md` files need an entry.\n");
        reveal_strlit("---\nname: okf-spec\ndescription: Write OKF concepts: markdown files whose YAML front matter gives a type, a title and the optional trust, staleness and source fields.\n---\n\n# okf-spec\n\nUse this skill when writing or editing a concept.\n\n1. Start the file with front matter: `type` is required, `title` is recommended.\n2. Record who generated the concept and who verified it, and when.\n3. Set `stale_after` when the content should be revisited by a date.\n");
        lemma_declares_name(dev@);
        lemma_declares_name(plan@);
        lemma_declares_name(spec@);
    }
    let mut r: Vec<Skill> = Vec::new();
    r.push(Skill { name: "okf-dev", content: dev });
    r.push(Skill { name: "okf-plan", content: plan });
    r.push(Skill { name: "okf-spec", content: spec });
    r
}

/// A text that starts with `---\nname:` declares a name.
proof fn lemma_declares_name(c: Seq<char>)
    requires
        c.len() >= 9,
        c[0] == '-' && c[1] == '-' && c[2] == '-' && c[3] == '\n',
        c[4] == 'n' && c[5] == 'a' && c[6] == 'm' && c[7] == 'e' && c[8] == ':',
    ensures
        declares_name(c),
{
    reveal_strlit("---");
    reveal_strlit("name:");
    assert(!crate::text::is_ws(c[0]));
    assert(trim_start(c) == c);
    assert(c.subrange(0, 3) =~= "---"@);
    assert(c.subrange(4, 9) =~= "name:"@);
    assert(occurs_at(c, "name:"@, 4));
}


/// No two bundled skills share a name.
pub proof fn lemma_skill_names_distinct()
    ensures
        forall|i: int, j: int| 0 <= i < j < skill_names().len() ==> skill_names()[i] != skill_names()[j],
{
    reveal_strlit("okf-dev");
    reveal_strlit("okf-plan");
    reveal_strlit("okf-spec");
    assert("okf-dev"@[4] != "okf-plan"@[4]);
    assert("okf-dev"@[4] != "okf-spec"@[4]);
    assert("okf-plan"@[5] != "okf-spec"@[5]);
}

} // verus!
