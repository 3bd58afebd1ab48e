//! The categories and their source URLs.

use vstd::prelude::*;

verus! {

/// The source URLs of each category, in the order in which they were configured.
/// It is loaded once and read from then on.
#[derive(Debug)]
pub struct UrlLists {
    /// The sources of the category `full`.
    pub full: Vec<String>,
    /// The sources of the category `msfw`.
    pub msfw: Vec<String>,
    /// The sources of the category `social`.
    pub social: Vec<String>,
}

/// The number of categories.
pub const CATEGORY_COUNT: usize = 3;

/// The name of the first category.
pub open spec fn full_name() -> Seq<char> {
    seq!['f', 'u', 'l', 'l']
}

/// The name of the second category.
pub open spec fn msfw_name() -> Seq<char> {
    seq!['m', 's', 'f', 'w']
}

/// The name of the third category.
pub open spec fn social_name() -> Seq<char> {
    seq!['s', 'o', 'c', 'i', 'a', 'l']
}

/// The names of the categories, in the order in which a refresh goes through them.
pub open spec fn category_names() -> Seq<Seq<char>> {
    seq![full_name(), msfw_name(), social_name()]
}

/// The three names differ from each other.
pub proof fn lemma_names_differ()
    ensures
        forall|i: int, j: int|
            0 <= i < j < category_names().len() ==> category_names()[i] != category_names()[j],
{
    assert(full_name()[0] != msfw_name()[0]);
    assert(full_name()[0] != social_name()[0]);
    assert(msfw_name()[0] != social_name()[0]);
}

impl UrlLists {
    /// The sources that `name` stands for, if it is the name of a category.
    pub open spec fn sources_of(&self, name: Seq<char>) -> Option<Vec<String>> {
        if name == full_name() {
            Some(self.full)
        } else if name == msfw_name() {
            Some(self.msfw)
        } else if name == social_name() {
            Some(self.social)
        } else {
            None
        }
    }

    /// Every category with its sources: `full`, `msfw`, `social`, in this order,
    /// the same on every call. No name occurs twice.
    pub fn as_map(&self) -> (map: Vec<(&str, &Vec<String>)>)
        ensures
            map@.len() == CATEGORY_COUNT,
            forall|i: int|
                0 <= i < CATEGORY_COUNT ==> (#[trigger] map@[i]).0@ == category_names()[i],
            forall|i: int|
                0 <= i < CATEGORY_COUNT ==> self.sources_of((#[trigger] map@[i]).0@) == Some(
                    *map@[i].1,
                ),
            *map@[0].1 == self.full,
            *map@[1].1 == self.msfw,
            *map@[2].1 == self.social,
            forall|i: int, j: int| 0 <= i < j < CATEGORY_COUNT ==> map@[i].0@ != map@[j].0@,
    {
        proof {
            reveal_strlit("full");
            reveal_strlit("msfw");
            reveal_strlit("social");
            assert("full"@ =~= full_name());
            assert("msfw"@ =~= msfw_name());
            assert("social"@ =~= social_name());
            lemma_names_differ();
        }
        let mut map: Vec<(&str, &Vec<String>)> = Vec::new();
        map.push(("full", &self.full));
        map.push(("msfw", &self.msfw));
        map.push(("social", &self.social));
        map
    }

    /// The sources of the category `name`; `None` where there is no such category.
    pub fn get(&self, name: &str) -> (urls: Option<&Vec<String>>)
        ensures
            match urls {
                Some(v) => self.sources_of(name@) == Some(*v),
                None => self.sources_of(name@) is None,
            },
    {
        proof {
            reveal_strlit("full");
            reveal_strlit("msfw");
            reveal_strlit("social");
            assert("full"@ =~= full_name());
            assert("msfw"@ =~= msfw_name());
            assert("social"@ =~= social_name());
        }
        if crate::sorting::same(name, "full") {
            Some(&self.full)
        } else if crate::sorting::same(name, "msfw") {
            Some(&self.msfw)
        } else if crate::sorting::same(name, "social") {
            Some(&self.social)
        } else {
            None
        }
    }
}

} // verus!
