use vstd::prelude::*;

use crate::tree::FileTree;

verus! {

/// How a placeholder is answered: free text with a default, or one of a list.
pub enum PlaceholderKind {
    SingleChoice(String),
    MultipleChoice(Vec<String>),
}

/// One named question whose answer replaces the placeholder's token.
pub struct PlaceholderItem {
    pub template_key: String,
    pub prompt_message: String,
    pub kind: PlaceholderKind,
    /// The answer as UTF-8 bytes, empty until resolved.
    pub answer: Vec<u8>,
}

/// The placeholders of a template, in the order they are asked.
pub struct TemplateSpecification {
    pub placeholders: Vec<PlaceholderItem>,
}

/// A loaded tree together with its specification.
pub struct TemplateConfiguration {
    pub file_list: FileTree,
    pub template_specification: TemplateSpecification,
}

pub enum SpecificationError {
    /// The document at the path is malformed, for the reason given.
    ParseError(Vec<u8>, String),
    /// Two placeholders share this key.
    DuplicateKey(String),
}

/// Where a template keeps its specification: `template.yaml` at the root.
pub open spec fn specification_path() -> Seq<u8> {
    seq![116u8, 101u8, 109u8, 112u8, 108u8, 97u8, 116u8, 101u8, 46u8, 121u8, 97u8, 109u8, 108u8]
}

pub fn specification_path_exec() -> (r: Vec<u8>)
    ensures
        r@ == specification_path(),
{
    let r = vec![116u8, 101u8, 109u8, 112u8, 108u8, 97u8, 116u8, 101u8, 46u8, 121u8, 97u8, 109u8, 108u8];
    assert(r@ =~= specification_path());
    r
}

/// The tree holds a file at the specification's path.
pub open spec fn has_document(tree: FileTree) -> bool {
    exists|k: int| 0 <= k < tree.entries().len() && #[trigger] tree.entries()[k].0 == specification_path()
}

/// The bytes of the specification document, where the tree holds one.
pub fn specification_document(tree: &FileTree) -> (r: Option<&Vec<u8>>)
    ensures
        r is Some <==> has_document(*tree),
        r is Some ==> exists|k: int| 0 <= k < tree.entries().len()
            && tree.entries()[k].0 == specification_path() && #[trigger] tree.entries()[k].1 == r->Some_0@,
{
    let path = specification_path_exec();
    let r = tree.find(path.as_slice());
    proof {
        if r is None {
            assert(!has_document(*tree));
        }
    }
    r
}

pub open spec fn keys(items: Seq<PlaceholderItem>) -> Seq<Seq<char>> {
    items.map_values(|i: PlaceholderItem| i.template_key@)
}

/// The key at `j` was already used by an earlier placeholder.
pub open spec fn repeats_earlier(keys: Seq<Seq<char>>, j: int) -> bool {
    exists|k: int| 0 <= k < j && keys[k] == #[trigger] keys[j]
}

/// No two placeholders share a key.
pub open spec fn keys_unique(keys: Seq<Seq<char>>) -> bool {
    forall|k: int, l: int| 0 <= k < l < keys.len() ==> #[trigger] keys[k] != #[trigger] keys[l]
}

/// The first placeholder whose key repeats an earlier one.
pub fn find_duplicate_key(items: &Vec<PlaceholderItem>) -> (r: Option<usize>)
    ensures
        r is None <==> keys_unique(keys(items@)),
        r is Some ==> r->Some_0 < items@.len() && repeats_earlier(keys(items@), r->Some_0 as int)
            && forall|j: int| 0 <= j < r->Some_0 ==> !repeats_earlier(keys(items@), j),
{
    let ghost ks = keys(items@);
    let mut j: usize = 0;
    while j < items.len()
        invariant
            j <= items@.len(),
            ks == keys(items@),
            ks.len() == items@.len(),
            forall|m: int| 0 <= m < j ==> !repeats_earlier(ks, m),
        decreases items@.len() - j,
    {
        let mut k: usize = 0;
        while k < j
            invariant
                k <= j < items@.len(),
                ks == keys(items@),
                ks.len() == items@.len(),
                forall|m: int| 0 <= m < k ==> ks[m] != ks[j as int],
                forall|m: int| 0 <= m < j ==> !repeats_earlier(ks, m),
            decreases j - k,
        {
            if items[k].template_key == items[j].template_key {
                assert(ks[k as int] == ks[j as int]);
                return Some(j);
            }
            k = k + 1;
        }
        assert(!repeats_earlier(ks, j as int));
        j = j + 1;
    }
    assert forall|k: int, l: int| 0 <= k < l < ks.len() implies #[trigger] ks[k] != #[trigger] ks[l] by {
        assert(!repeats_earlier(ks, l));
    }
    None
}

/// What loading a configuration from a tree and the parsed document gives.
pub open spec fn configuration_outcome(
    tree: FileTree,
    parsed: Result<Vec<PlaceholderItem>, String>,
    r: Result<TemplateConfiguration, SpecificationError>,
) -> bool {
    if !has_document(tree) {
        r is Ok && r->Ok_0.file_list == tree && r->Ok_0.template_specification.placeholders@.len() == 0
    } else {
        match parsed {
            Err(cause) => r is Err && r->Err_0 is ParseError && r->Err_0->ParseError_0@ == specification_path()
                && r->Err_0->ParseError_1@ == cause@,
            Ok(items) => if keys_unique(keys(items@)) {
                r is Ok && r->Ok_0.file_list == tree && r->Ok_0.template_specification.placeholders == items
            } else {
                r is Err && r->Err_0 is DuplicateKey && exists|j: int|
                    0 <= j < items@.len() && repeats_earlier(keys(items@), j)
                    && (forall|m: int| 0 <= m < j ==> !repeats_earlier(keys(items@), m))
                    && #[trigger] keys(items@)[j] == r->Err_0->DuplicateKey_0@
            },
        }
    }
}

/// Pairs a loaded tree with its specification: a tree without a document has
/// no placeholders; otherwise the document must have parsed, and its keys must
/// be unique.
pub fn load_template_configuration(tree: FileTree, parsed: Result<Vec<PlaceholderItem>, String>) -> (r:
    Result<TemplateConfiguration, SpecificationError>)
    ensures
        configuration_outcome(tree, parsed, r),
{
    if specification_document(&tree).is_none() {
        return Ok(TemplateConfiguration {
            file_list: tree,
            template_specification: TemplateSpecification { placeholders: Vec::new() },
        });
    }
    match parsed {
        Err(cause) => Err(SpecificationError::ParseError(specification_path_exec(), cause)),
        Ok(items) => match find_duplicate_key(&items) {
            Some(j) => {
                let key = items[j].template_key.clone();
                assert(keys(items@)[j as int] == key@);
                Err(SpecificationError::DuplicateKey(key))
            },
            None => Ok(TemplateConfiguration {
                file_list: tree,
                template_specification: TemplateSpecification { placeholders: items },
            }),
        },
    }
}

/// Where two placeholders, and no others, share a key, loading a configuration
/// whose document declares them fails with that key.
pub proof fn lemma_shared_key_is_reported(
    tree: FileTree,
    items: Vec<PlaceholderItem>,
    a: int,
    b: int,
    r: Result<TemplateConfiguration, SpecificationError>,
)
    requires
        has_document(tree),
        0 <= a < b < items@.len(),
        items@[a].template_key@ == items@[b].template_key@,
        forall|k: int, l: int|
            0 <= k < l < items@.len() && #[trigger] items@[k].template_key@ == #[trigger] items@[l].template_key@
                ==> k == a && l == b,
        configuration_outcome(tree, Ok(items), r),
    ensures
        r is Err,
        r->Err_0 is DuplicateKey,
        r->Err_0->DuplicateKey_0@ == items@[a].template_key@,
{
    let ks = keys(items@);
    assert(ks[a] == items@[a].template_key@ && ks[b] == items@[b].template_key@);
    assert(!keys_unique(ks));
    let j = choose|j: int|
        0 <= j < items@.len() && repeats_earlier(keys(items@), j)
        && (forall|m: int| 0 <= m < j ==> !repeats_earlier(keys(items@), m))
        && #[trigger] keys(items@)[j] == r->Err_0->DuplicateKey_0@;
    let k = choose|k: int| 0 <= k < j && ks[k] == #[trigger] ks[j];
    assert(ks[k] == items@[k].template_key@ && ks[j] == items@[j].template_key@);
}

} // verus!
