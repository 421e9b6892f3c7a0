//! News entries: a title, a description and the item's category labels,
//! with a verified rendering of the line that is printed per item.

use vstd::prelude::*;
use crate::summary;

verus! {

/// A category label attached to a news item. The label text is kept raw:
/// no normalization is performed.
pub struct NyheterCategory {
    pub raw_name: String,
}

impl NyheterCategory {
    /// Wraps a raw label text as a category, unchanged.
    pub fn from_label(label: &str) -> (c: NyheterCategory)
        ensures
            c.raw_name@ == label@,
    {
        NyheterCategory { raw_name: label.to_owned() }
    }

    /// The text shown for this category: the raw label itself.
    pub fn debug_text(&self) -> (r: String)
        ensures
            r@ == self.raw_name@,
    {
        self.raw_name.clone()
    }
}

impl core::str::FromStr for NyheterCategory {
    type Err = ();

    fn from_str(s: &str) -> Result<Self, Self::Err> {
        Ok(NyheterCategory::from_label(s))
    }
}

/// One news item: its title, its raw description, and its categories, in
/// feed order. Immutable once built; the short description is derived from
/// `description` on demand and never stored.
pub struct NyheterNewsEntry {
    pub title: String,
    pub description: String,
    pub categories: Vec<NyheterCategory>,
}

/// The category labels joined with `", "`, in feed order.
pub open spec fn labels_joined(cats: Seq<NyheterCategory>) -> Seq<char>
    decreases cats.len(),
{
    if cats.len() == 0 {
        Seq::empty()
    } else if cats.len() == 1 {
        cats[0].raw_name@
    } else {
        labels_joined(cats.drop_last()) + seq![',', ' '] + cats.last().raw_name@
    }
}

/// The bracketed, comma-separated rendering of the category list.
pub open spec fn categories_rendered(cats: Seq<NyheterCategory>) -> Seq<char> {
    seq!['['] + labels_joined(cats) + seq![']']
}

/// The one line printed per news item: title, short description and the
/// category list, separated by `" :: "`.
pub open spec fn entry_line(
    title: Seq<char>,
    description: Seq<char>,
    cats: Seq<NyheterCategory>,
) -> Seq<char> {
    title + seq![' ', ':', ':', ' '] + summary::summarized(description) + seq![
        ' ',
        ':',
        ':',
        ' ',
    ] + categories_rendered(cats)
}

/// Wraps each raw category label of a feed item, keeping order and text.
pub fn get_enhanced_categories(input: &Vec<String>) -> (r: Vec<NyheterCategory>)
    ensures
        r@.len() == input@.len(),
        forall|i: int| 0 <= i < input@.len() ==> r@[i].raw_name@ == input@[i]@,
{
    let mut category_list: Vec<NyheterCategory> = Vec::new();
    let mut i: usize = 0;
    while i < input.len()
        invariant
            i <= input@.len(),
            category_list@.len() == i,
            forall|j: int| 0 <= j < i ==> category_list@[j].raw_name@ == input@[j]@,
        decreases input@.len() - i,
    {
        category_list.push(NyheterCategory::from_label(input[i].as_str()));
        i = i + 1;
    }
    category_list
}

/// Renders the category list in a debug style: `[first, second, ...]`.
pub fn render_categories(cats: &Vec<NyheterCategory>) -> (r: String)
    ensures
        r@ == categories_rendered(cats@),
{
    let mut out = String::from_str("[");
    proof {
        reveal_strlit("[");
        assert(out@ =~= seq!['['] + labels_joined(cats@.subrange(0, 0)));
    }
    let mut i: usize = 0;
    while i < cats.len()
        invariant
            i <= cats@.len(),
            out@ == seq!['['] + labels_joined(cats@.subrange(0, i as int)),
        decreases cats@.len() - i,
    {
        if i > 0 {
            out.append(", ");
            proof {
                reveal_strlit(", ");
            }
        }
        out.append(cats[i].raw_name.as_str());
        proof {
            let pre = cats@.subrange(0, i as int);
            let cur = cats@.subrange(0, i as int + 1);
            assert(cur.drop_last() =~= pre);
            assert(cur.last() == cats@[i as int]);
            if i == 0 {
                assert(labels_joined(cur) == cats@[0].raw_name@);
                assert(out@ =~= seq!['['] + labels_joined(cur));
            } else {
                assert(labels_joined(cur) == labels_joined(pre) + seq![',', ' ']
                    + cats@[i as int].raw_name@);
                assert(", "@ =~= seq![',', ' ']);
                assert(out@ =~= seq!['['] + labels_joined(cur));
            }
        }
        i = i + 1;
    }
    out.append("]");
    proof {
        reveal_strlit("]");
        assert(cats@.subrange(0, cats@.len() as int) =~= cats@);
        assert(out@ =~= categories_rendered(cats@));
    }
    out
}

impl NyheterNewsEntry {
    /// The bounded single-line summary of this entry's description: line
    /// breaks and markup removed, white space trimmed, and the text
    /// truncated with an ellipsis when it is too long.
    pub fn get_short_description(&self) -> (r: String)
        ensures
            r@ == summary::summarized(self.description@),
    {
        summary::summarize(self.description.as_str())
    }

    /// The line printed for this entry:
    /// `<title> :: <short description> :: [<categories>]`.
    pub fn format_line(&self) -> (r: String)
        ensures
            r@ == entry_line(self.title@, self.description@, self.categories@),
    {
        let mut out = self.title.clone();
        out.append(" :: ");
        let short = self.get_short_description();
        out.append(short.as_str());
        out.append(" :: ");
        let rendered = render_categories(&self.categories);
        out.append(rendered.as_str());
        proof {
            reveal_strlit(" :: ");
            assert(" :: "@ =~= seq![' ', ':', ':', ' ']);
            assert(out@ =~= entry_line(self.title@, self.description@, self.categories@));
        }
        out
    }
}

} // verus!
