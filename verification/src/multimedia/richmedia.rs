//! Rich media annotations.

use crate::plugins::texts;
use crate::text::str_eq;
use crate::types::{count_items, item_count, ValueShape};
use vstd::prelude::*;

verus! {

/// Counts of the parts of a rich media annotation.
#[derive(Debug, Clone)]
pub struct RichMediaInfo {
    pub assets_count: usize,
    pub configuration_count: usize,
    pub script_count: usize,
    pub asset_names: Vec<String>,
}

/// The distinct texts of `s`, each where it first occurs, in order.
pub open spec fn first_occurrences(s: Seq<Seq<char>>) -> Seq<Seq<char>>
    decreases s.len(),
{
    if s.len() == 0 {
        seq![]
    } else {
        let p = first_occurrences(s.drop_last());
        if s.drop_last().contains(s.last()) {
            p
        } else {
            p.push(s.last())
        }
    }
}

/// The distinct texts hold the same texts as the list.
pub proof fn lemma_first_occurrences_contains(s: Seq<Seq<char>>)
    ensures
        forall|x: Seq<char>| #[trigger] first_occurrences(s).contains(x) <==> s.contains(x),
    decreases s.len(),
{
    if s.len() > 0 {
        let p = s.drop_last();
        lemma_first_occurrences_contains(p);
        assert forall|x: Seq<char>| #[trigger] first_occurrences(s).contains(x) <==> s.contains(x) by {
            if s.contains(x) {
                let i = choose|i: int| 0 <= i < s.len() && s[i] == x;
                if i < s.len() - 1 {
                    assert(p[i] == x);
                }
            }
            if p.contains(x) {
                let i = choose|i: int| 0 <= i < p.len() && p[i] == x;
                assert(s[i] == x);
            }
            let f = first_occurrences(p);
            if !p.contains(s.last()) && f.push(s.last()).contains(x) {
                let i = choose|i: int| 0 <= i < f.len() + 1 && f.push(s.last())[i] == x;
                if i < f.len() {
                    assert(f[i] == x);
                }
            }
            if !p.contains(s.last()) && f.contains(x) {
                let i = choose|i: int| 0 <= i < f.len() && f[i] == x;
                assert(f.push(s.last())[i] == x);
            }
            if !p.contains(s.last()) && x == s.last() {
                assert(f.push(s.last())[f.len() as int] == x);
            }
        }
    }
}

/// `t` is one of the strings.
pub(crate) fn contains_string(list: &Vec<String>, t: &str) -> (r: bool)
    ensures
        r == texts(list@).contains(t@),
{
    let mut i: usize = 0;
    while i < list.len()
        invariant
            i <= list@.len(),
            forall|j: int| 0 <= j < i ==> list@[j]@ != t@,
        decreases list@.len() - i,
    {
        if str_eq(list[i].as_str(), t) {
            assert(texts(list@)[i as int] == t@);
            return true;
        }
        i += 1;
    }
    assert forall|j: int| 0 <= j < texts(list@).len() implies texts(list@)[j] != t@ by {
        assert(texts(list@)[j] == list@[j]@);
    }
    false
}

/// The distinct strings of `list`, each where it first occurs, in order.
pub fn unique_strings(list: Vec<String>) -> (r: Vec<String>)
    ensures
        texts(r@) == first_occurrences(texts(list@)),
{
    let mut out: Vec<String> = Vec::new();
    let mut i: usize = 0;
    while i < list.len()
        invariant
            i <= list@.len(),
            texts(out@) == first_occurrences(texts(list@.subrange(0, i as int))),
        decreases list@.len() - i,
    {
        let ghost done = texts(list@.subrange(0, i as int));
        let ghost next = texts(list@.subrange(0, i + 1));
        assert(next.drop_last() =~= done);
        assert(next.last() == list@[i as int]@);
        proof {
            lemma_first_occurrences_contains(done);
        }
        if !contains_string(&out, list[i].as_str()) {
            let item = list[i].as_str().to_string();
            let ghost before = out@;
            out.push(item);
            assert(texts(out@) =~= texts(before).push(list@[i as int]@));
        }
        i += 1;
    }
    assert(list@.subrange(0, i as int) =~= list@);
    out
}

/// An item of the `Names` array of rich media assets, as naming reads it: a name (without
/// the slash), a text string (decoded), or another value.
pub enum AssetEntry {
    Name(String),
    Text(String),
    Other,
}

/// What the info reads of a rich media content dictionary: the `Names` array of its
/// `Assets` dictionary, and its `Configurations`.
pub struct RichMediaContent {
    pub asset_names: Option<Vec<AssetEntry>>,
    pub configurations: Option<ValueShape>,
}

/// What the info reads of rich media settings: `Scripts` and `Script`.
pub struct RichMediaSettings {
    pub scripts: Option<ValueShape>,
    pub script: Option<ValueShape>,
}

/// The name an asset entry gives.
pub open spec fn asset_name(e: AssetEntry) -> Seq<char> {
    match e {
        AssetEntry::Name(n) => n@,
        AssetEntry::Text(t) => t@,
        AssetEntry::Other => "asset"@,
    }
}

/// The names of the assets: the entries at even positions (each followed by its file).
pub open spec fn even_names(items: Seq<AssetEntry>) -> Seq<Seq<char>> {
    Seq::new(((items.len() + 1) / 2) as nat, |i: int| asset_name(items[2 * i]))
}

/// The number of assets and their distinct names.
pub open spec fn assets_of(items: Option<Seq<AssetEntry>>) -> (nat, Seq<Seq<char>>) {
    match items {
        None => (0, seq![]),
        Some(s) => {
            let unique = first_occurrences(even_names(s));
            let pairs = ((s.len() + 1) / 2) as nat;
            (if pairs == 0 {
                unique.len()
            } else {
                pairs
            }, unique)
        },
    }
}

/// The number of scripts: the items of a `Scripts` array, else one for a non-empty
/// `Script` dictionary.
pub open spec fn script_count(s: RichMediaSettings) -> usize {
    match s.scripts {
        Some(ValueShape::Array(n)) => n,
        _ => match s.script {
            Some(ValueShape::Dictionary(m)) => if m == 0 {
                0
            } else {
                1
            },
            _ => 0,
        },
    }
}

fn asset_name_of(e: &AssetEntry) -> (r: String)
    ensures
        r@ == asset_name(*e),
{
    match e {
        AssetEntry::Name(n) => n.as_str().to_string(),
        AssetEntry::Text(t) => t.as_str().to_string(),
        AssetEntry::Other => "asset".to_string(),
    }
}

fn extract_assets(content: &RichMediaContent) -> (r: (usize, Vec<String>))
    ensures
        r.0 == assets_of(
            match &content.asset_names {
                Some(v) => Some(v@),
                None => None,
            },
        ).0,
        texts(r.1@) == assets_of(
            match &content.asset_names {
                Some(v) => Some(v@),
                None => None,
            },
        ).1,
{
    let items = match &content.asset_names {
        Some(v) => v,
        None => {
            let empty: Vec<String> = Vec::new();
            assert(texts(empty@) =~= Seq::<Seq<char>>::empty());
            return (0, empty);
        },
    };
    let mut names: Vec<String> = Vec::new();
    let pairs = items.len() / 2 + items.len() % 2;
    assert(pairs == even_names(items@).len());
    let mut count: usize = 0;
    while count < pairs
        invariant
            pairs == even_names(items@).len(),
            pairs == items@.len() / 2 + items@.len() % 2,
            items@.len() <= usize::MAX,
            count <= pairs,
            texts(names@) == even_names(items@).take(count as int),
        decreases pairs - count,
    {
        let i = 2 * count;
        let name = asset_name_of(&items[i]);
        let ghost before = names@;
        names.push(name);
        assert(texts(names@) =~= texts(before).push(asset_name(items@[i as int])));
        assert(even_names(items@)[count as int] == asset_name(items@[2 * count]));
        assert(even_names(items@).take(count + 1) =~= even_names(items@).take(count as int).push(
            asset_name(items@[i as int]),
        ));
        count += 1;
    }
    assert(count == even_names(items@).len());
    assert(even_names(items@).take(count as int) =~= even_names(items@));
    let unique = unique_strings(names);
    let total = if count == 0 {
        unique.len()
    } else {
        count
    };
    assert(texts(unique@).len() == unique@.len());
    (total, unique)
}

fn extract_scripts(settings: &RichMediaSettings) -> (r: usize)
    ensures
        r == script_count(*settings),
{
    match settings.scripts {
        Some(ValueShape::Array(n)) => n,
        _ => match settings.script {
            Some(ValueShape::Dictionary(m)) => if m == 0 {
                0
            } else {
                1
            },
            _ => 0,
        },
    }
}

/// Counts the assets, configurations and scripts of a rich media annotation from its
/// content and settings; without settings, from the annotation's own `RichMediaSettings`.
pub fn extract_richmedia_info(
    annotation_settings: Option<&RichMediaSettings>,
    content: Option<&RichMediaContent>,
    settings: Option<&RichMediaSettings>,
) -> (r: RichMediaInfo)
    ensures
        match content {
            Some(c) => {
                let a = assets_of(
                    match &c.asset_names {
                        Some(v) => Some(v@),
                        None => None,
                    },
                );
                &&& r.assets_count == a.0
                &&& texts(r.asset_names@) == a.1
                &&& r.configuration_count == item_count(c.configurations)
            },
            None => r.assets_count == 0 && r.asset_names@.len() == 0 && r.configuration_count == 0,
        },
        r.script_count == match settings {
            Some(s) => script_count(*s),
            None => match annotation_settings {
                Some(s) => script_count(*s),
                None => 0,
            },
        },
{
    let mut info = RichMediaInfo {
        assets_count: 0,
        configuration_count: 0,
        script_count: 0,
        asset_names: Vec::new(),
    };
    if let Some(c) = content {
        let (assets_count, asset_names) = extract_assets(c);
        info.assets_count = assets_count;
        info.asset_names = asset_names;
        info.configuration_count = count_items(c.configurations);
    }
    if let Some(s) = settings {
        info.script_count = extract_scripts(s);
    } else if let Some(s) = annotation_settings {
        info.script_count = extract_scripts(s);
    }
    info
}

} // verus!
