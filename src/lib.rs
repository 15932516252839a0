//! Localized message catalogs built from hierarchical documents, with
//! named-placeholder substitution at lookup time.

pub mod document;
pub mod path;
pub mod flatten;
pub mod template;

use vstd::prelude::*;
use vstd::hash_map::StringHashMap;
use vstd::string::*;
use crate::document::Node;
use crate::flatten::{disjoint_ids, doc_entries, flatten_document, insert_all, lemma_disjoint_commute, table_view};
use crate::template::{replace, substitute, token};

verus! {

/// The table of one language: everything its documents flatten to, the
/// documents taken in order, a later one overwriting an earlier one.
pub open spec fn language_table(docs: Seq<Node>) -> Map<Seq<char>, Seq<char>>
    decreases docs.len(),
{
    if docs.len() == 0 {
        Map::empty()
    } else {
        insert_all(language_table(docs.drop_last()), doc_entries(docs.last(), Seq::empty()))
    }
}

/// The catalog of a list of languages, each with its documents.
pub open spec fn catalog_of(langs: Seq<(String, Vec<Node>)>) -> Map<Seq<char>, Map<Seq<char>, Seq<char>>>
    decreases langs.len(),
{
    if langs.len() == 0 {
        Map::empty()
    } else {
        catalog_of(langs.drop_last()).insert(langs.last().0@, language_table(langs.last().1@))
    }
}

/// Building from the same languages, names and documents gives the same
/// catalog: a rebuild from an unchanged source equals the first build.
pub proof fn lemma_rebuild_same_catalog(a: Seq<(String, Vec<Node>)>, b: Seq<(String, Vec<Node>)>)
    requires
        a.len() == b.len(),
        forall|i: int| 0 <= i < a.len() ==> a[i].0@ == b[i].0@ && a[i].1@ == b[i].1@,
    ensures
        catalog_of(a) == catalog_of(b),
    decreases a.len(),
{
    if a.len() > 0 {
        lemma_rebuild_same_catalog(a.drop_last(), b.drop_last());
    }
}

/// Two documents found one after the other whose identifiers are disjoint
/// give the same language table in either order.
pub proof fn lemma_document_order_irrelevant(docs: Seq<Node>, k: int)
    requires
        0 <= k,
        k + 1 < docs.len(),
        disjoint_ids(doc_entries(docs[k], Seq::empty()), doc_entries(docs[k + 1], Seq::empty())),
    ensures
        language_table(docs.update(k, docs[k + 1]).update(k + 1, docs[k])) == language_table(docs),
    decreases docs.len(),
{
    let swapped = docs.update(k, docs[k + 1]).update(k + 1, docs[k]);
    if docs.len() == k + 2 {
        let p = docs.drop_last().drop_last();
        assert(swapped.drop_last().drop_last() =~= p);
        assert(swapped.last() == docs[k]);
        assert(swapped.drop_last().last() == docs[k + 1]);
        lemma_disjoint_commute(
            language_table(p),
            doc_entries(docs[k], Seq::empty()),
            doc_entries(docs[k + 1], Seq::empty()),
        );
        assert(language_table(docs.drop_last()) == insert_all(language_table(p), doc_entries(docs[k], Seq::empty())));
        assert(language_table(swapped.drop_last()) == insert_all(language_table(p), doc_entries(docs[k + 1], Seq::empty())));
    } else {
        lemma_document_order_irrelevant(docs.drop_last(), k);
        assert(swapped.drop_last() =~= docs.drop_last().update(k, docs[k + 1]).update(k + 1, docs[k]));
        assert(swapped.last() == docs.last());
    }
}

/// Placeholder parameters as name/value texts.
pub open spec fn params_view(params: Seq<(&str, String)>) -> Seq<(Seq<char>, Seq<char>)> {
    params.map_values(|p: (&str, String)| (p.0@, p.1@))
}

/// What a lookup displays: the stored template with its placeholders
/// substituted, or the identifier itself where the language or the
/// identifier is unknown.
pub open spec fn resolve(
    catalog: Map<Seq<char>, Map<Seq<char>, Seq<char>>>,
    language: Seq<char>,
    message_id: Seq<char>,
    params: Seq<(Seq<char>, Seq<char>)>,
) -> Seq<char> {
    if catalog.contains_key(language) && catalog[language].contains_key(message_id) {
        substitute(catalog[language][message_id], params)
    } else {
        message_id
    }
}

/// The message catalog: for each language code, its identifiers and
/// templates.
pub struct Messages {
    pub collection: StringHashMap<StringHashMap<String>>,
}

impl View for Messages {
    type V = Map<Seq<char>, Map<Seq<char>, Seq<char>>>;

    open spec fn view(&self) -> Self::V {
        self.collection@.map_values(|t: StringHashMap<String>| table_view(t))
    }
}

impl Messages {
    /// Builds the catalog from each language's parsed documents, in the
    /// order in which they were found.
    pub fn new(languages: Vec<(String, Vec<Node>)>) -> (r: Messages)
        ensures
            r@ == catalog_of(languages@),
    {
        let mut collection: StringHashMap<StringHashMap<String>> = StringHashMap::new();
        let mut i: usize = 0;
        assert(collection@.map_values(|t: StringHashMap<String>| table_view(t)) =~= Map::empty());
        while i < languages.len()
            invariant
                i <= languages.len(),
                collection@.map_values(|t: StringHashMap<String>| table_view(t)) == catalog_of(languages@.take(i as int)),
            decreases languages.len() - i,
        {
            let docs = &languages[i].1;
            let mut table: StringHashMap<String> = StringHashMap::new();
            let mut j: usize = 0;
            assert(table_view(table) =~= Map::empty());
            while j < docs.len()
                invariant
                    j <= docs.len(),
                    table_view(table) == language_table(docs@.take(j as int)),
                decreases docs.len() - j,
            {
                flatten_document(&docs[j], &mut table);
                assert(docs@.take(j + 1).drop_last() =~= docs@.take(j as int));
                j += 1;
            }
            assert(docs@.take(j as int) =~= docs@);
            let ghost before = collection@.map_values(|t: StringHashMap<String>| table_view(t));
            let name = languages[i].0.clone();
            collection.insert(name, table);
            assert(languages@.take(i + 1).drop_last() =~= languages@.take(i as int));
            assert(collection@.map_values(|t: StringHashMap<String>| table_view(t))
                =~= before.insert(languages@[i as int].0@, table_view(table)));
            i += 1;
        }
        assert(languages@.take(i as int) =~= languages@);
        Messages { collection }
    }

    /// How many messages `language` holds; none where it is unknown.
    pub fn message_count(&self, language: &str) -> (r: usize)
        ensures
            r == (if self@.contains_key(language@) { self@[language@].len() } else { 0 }),
    {
        match self.collection.get(language) {
            None => 0,
            Some(table) => {
                assert(table_view(*table).dom() =~= table@.dom());
                table.len()
            },
        }
    }

    /// The message `message_id` of `language`, with each `{name}` of the
    /// parameters replaced by its value; the identifier itself where the
    /// language or the message is unknown.
    pub fn trans(&self, language: &str, message_id: &str, parameters: Vec<(&str, String)>) -> (r: String)
        ensures
            r@ == resolve(self@, language@, message_id@, params_view(parameters@)),
            !self@.contains_key(language@) ==> r@ == message_id@,
            self@.contains_key(language@) && !self@[language@].contains_key(message_id@) ==> r@ == message_id@,
    {
        match self.collection.get(language) {
            None => String::from_str(message_id),
            Some(table) => match table.get(message_id) {
                None => String::from_str(message_id),
                Some(template) => {
                    let mut message = template.clone();
                    let mut i: usize = 0;
                    while i < parameters.len()
                        invariant
                            i <= parameters.len(),
                            message@ == substitute(template@, params_view(parameters@).take(i as int)),
                        decreases parameters.len() - i,
                    {
                        let name = parameters[i].0;
                        let mut tok = String::new();
                        proof {
                            reveal_strlit("{");
                            reveal_strlit("}");
                        }
                        tok.append("{");
                        tok.append(name);
                        tok.append("}");
                        assert(tok@ =~= token(name@));
                        message = replace(message.as_str(), tok.as_str(), parameters[i].1.as_str());
                        assert(params_view(parameters@).take(i + 1).drop_last() =~= params_view(parameters@).take(i as int));
                        i += 1;
                    }
                    assert(params_view(parameters@).take(i as int) =~= params_view(parameters@));
                    message
                },
            },
        }
    }
}

} // verus!
