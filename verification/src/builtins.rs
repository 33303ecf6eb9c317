//! The dashboards that are embedded in the program.

use crate::assembly::{Builtin, BuiltinView};
use crate::compile::{Tree, TreeView};
use crate::text;
use vstd::prelude::*;
use vstd::string::*;

verus! {

/// The source of an embedded dashboard, after compilation.
#[derive(Debug, PartialEq, Eq)]
pub struct BuiltinSource {
    pub path: String,
    /// The tree, if the source compiled; the compiler's remarks if it did not.
    pub reply: Result<Tree, Vec<String>>,
}

/// What a [`BuiltinSource`] stands for.
#[verifier::ext_equal]
pub struct BuiltinSourceView {
    pub path: Seq<char>,
    pub reply: Result<TreeView, Seq<Seq<char>>>,
}

impl View for BuiltinSource {
    type V = BuiltinSourceView;

    open spec fn view(&self) -> BuiltinSourceView {
        BuiltinSourceView {
            path: self.path@,
            reply: match self.reply {
                Ok(tree) => Ok(tree@),
                Err(remarks) => Err(text::views(remarks@)),
            },
        }
    }
}

/// A compiled dashboard, as it is embedded.
pub open spec fn builtin_of(tree: TreeView) -> BuiltinView {
    BuiltinView {
        id: tree.id,
        title: tree.title,
        hash: tree.hash,
        schema: tree.schema,
        json: tree.json,
    }
}

/// What is said of a source that does not compile: its path, and each remark on a
/// line of its own.
pub open spec fn complaint(path: Seq<char>, remarks: Seq<Seq<char>>) -> Seq<char> {
    "the built-in dashboard "@ + path + " does not compile:\n  "@ + text::joined(
        remarks,
        "\n  "@,
    )
}

/// What sources embed: the dashboards of all of them in their order or, where one
/// does not compile, nothing but the complaint of the first such.
pub open spec fn embedding(
    sources: Seq<BuiltinSourceView>,
) -> Result<Seq<BuiltinView>, Seq<char>>
    decreases sources.len(),
{
    if sources.len() == 0 {
        Ok(Seq::empty())
    } else {
        match embedding(sources.drop_last()) {
            Err(message) => Err(message),
            Ok(before) => match sources.last().reply {
                Ok(tree) => Ok(before.push(builtin_of(tree))),
                Err(remarks) => Err(complaint(sources.last().path, remarks)),
            },
        }
    }
}

/// What an embedding that may have failed stands for.
pub open spec fn embedding_view(
    r: Result<Vec<Builtin>, String>,
) -> Result<Seq<BuiltinView>, Seq<char>> {
    match r {
        Ok(builtins) => Ok(text::views(builtins@)),
        Err(message) => Err(message@),
    }
}

/// Once one source does not compile, what follows it changes nothing.
proof fn lemma_first_complaint_stays(sources: Seq<BuiltinSourceView>, n: int)
    requires
        0 <= n <= sources.len(),
        embedding(sources.take(n)) is Err,
    ensures
        embedding(sources) == embedding(sources.take(n)),
    decreases sources.len(),
{
    if n < sources.len() {
        assert(sources.drop_last().take(n) =~= sources.take(n));
        lemma_first_complaint_stays(sources.drop_last(), n);
    } else {
        assert(sources.take(n) =~= sources);
    }
}

/// Whether each source compiled.
pub open spec fn all_compile(sources: Seq<BuiltinSourceView>) -> bool {
    forall|i: int| 0 <= i < sources.len() ==> (#[trigger] sources[i]).reply is Ok
}

/// Sources embed their dashboards if and only if each of them compiles, and then
/// each embeds one.
proof fn lemma_embedding(sources: Seq<BuiltinSourceView>)
    ensures
        embedding(sources) is Ok <==> all_compile(sources),
        embedding(sources) matches Ok(builtins) ==> {
            &&& builtins.len() == sources.len()
            &&& forall|i: int|
                0 <= i < sources.len() ==> #[trigger] builtins[i] == builtin_of(
                    sources[i].reply->Ok_0,
                )
        },
    decreases sources.len(),
{
    if sources.len() > 0 {
        let before = sources.drop_last();
        lemma_embedding(before);
        if all_compile(sources) {
            assert forall|i: int| 0 <= i < before.len() implies (
            #[trigger] before[i]).reply is Ok by {
                assert(before[i] == sources[i]);
            }
        } else if all_compile(before) && sources.last().reply is Ok {
            assert forall|i: int| 0 <= i < sources.len() implies (
            #[trigger] sources[i]).reply is Ok by {
                if i < before.len() {
                    assert(sources[i] == before[i]);
                }
            }
        }
    }
}

/// Embeds the dashboards of sources. A broken one breaks the build, before any pod
/// runs it.
pub fn embed(sources: Vec<BuiltinSource>) -> (r: Result<Vec<Builtin>, String>)
    ensures
        embedding_view(r) == embedding(text::views(sources@)),
        r is Ok <==> all_compile(text::views(sources@)),
        r matches Ok(builtins) ==> builtins.len() == sources.len() && forall|i: int|
            0 <= i < sources.len() ==> (#[trigger] builtins@[i])@ == builtin_of(
                sources@[i]@.reply->Ok_0,
            ),
{
    let ghost all = text::views(sources@);
    let mut r: Vec<Builtin> = Vec::new();
    let mut i: usize = 0;
    proof {
        lemma_embedding(all);
        assert(all.take(0) =~= Seq::<BuiltinSourceView>::empty());
        assert(text::views(r@) =~= Seq::<BuiltinView>::empty());
    }
    while i < sources.len()
        invariant
            i <= sources.len(),
            all == text::views(sources@),
            embedding(all.take(i as int)) == Ok::<Seq<BuiltinView>, Seq<char>>(text::views(r@)),
            embedding(all) is Ok <==> all_compile(all),
        decreases sources.len() - i,
    {
        let ghost before = text::views(r@);
        let source = &sources[i];
        assert(all[i as int] == source@);
        assert(all.take(i + 1).drop_last() =~= all.take(i as int));
        match &source.reply {
            Ok(tree) => {
                let b = Builtin {
                    id: tree.id.clone(),
                    title: tree.title.clone(),
                    hash: tree.hash.clone(),
                    schema: tree.schema,
                    json: tree.json.clone(),
                };
                r.push(b);
                assert(text::views(r@) =~= before.push(b@));
            },
            Err(remarks) => {
                let mut head = "the built-in dashboard ".to_owned();
                head.append(source.path.as_str());
                head.append(" does not compile:\n  ");
                let message = text::append_joined(head, remarks, "\n  ");
                proof {
                    assert(embedding(all.take(i + 1)) == Err::<Seq<BuiltinView>, Seq<char>>(
                        message@,
                    ));
                    lemma_first_complaint_stays(all, i + 1);
                }
                return Err(message);
            },
        }
        i = i + 1;
    }
    assert(all.take(i as int) =~= all);
    proof {
        assert forall|k: int| 0 <= k < sources.len() implies (#[trigger] r@[k])@ == builtin_of(
            sources@[k]@.reply->Ok_0,
        ) by {
            assert(text::views(r@)[k] == r@[k]@);
            assert(all[k] == sources@[k]@);
        }
    }
    Ok(r)
}

/// Sources that all compile embed one dashboard each, in their order, with all that the
/// compiler made of it.
pub proof fn law_compiled_sources_are_embedded(sources: Seq<BuiltinSourceView>, i: int)
    requires
        forall|k: int| 0 <= k < sources.len() ==> (#[trigger] sources[k]).reply is Ok,
        0 <= i < sources.len(),
    ensures
        embedding(sources) is Ok,
        embedding(sources)->Ok_0.len() == sources.len(),
        ({
            let b = embedding(sources)->Ok_0[i];
            let tree = sources[i].reply->Ok_0;
            &&& b.id == tree.id
            &&& b.title == tree.title
            &&& b.hash == tree.hash
            &&& b.schema == tree.schema
            &&& b.json == tree.json
        }),
{
    assert(all_compile(sources));
    lemma_embedding(sources);
}

/// The first source that does not compile keeps all from being embedded, and is the one
/// that is complained of: by its path, with the compiler's remarks.
pub proof fn law_first_broken_source_is_named(sources: Seq<BuiltinSourceView>, k: int)
    requires
        0 <= k < sources.len(),
        sources[k].reply is Err,
        forall|j: int| 0 <= j < k ==> (#[trigger] sources[j]).reply is Ok,
    ensures
        embedding(sources) == Err::<Seq<BuiltinView>, Seq<char>>(
            "the built-in dashboard "@ + sources[k].path + " does not compile:\n  "@
                + text::joined(sources[k].reply->Err_0, "\n  "@),
        ),
{
    let before = sources.take(k);
    assert(all_compile(before)) by {
        assert forall|j: int| 0 <= j < before.len() implies (
        #[trigger] before[j]).reply is Ok by {
            assert(before[j] == sources[j]);
        }
    }
    lemma_embedding(before);
    assert(sources.take(k + 1).drop_last() =~= before);
    lemma_first_complaint_stays(sources, k + 1);
}

} // verus!
