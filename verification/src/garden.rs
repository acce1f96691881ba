//! A garden, and articles that can be summarised.

use vstd::prelude::*;
use vstd::string::StringExecFns;

verus! {

/// Plucks a vegetable. Nothing comes of it.
pub fn pluck_vegtable() {
    corrupt_vegtable();
}

/// Corrupts a vegetable. Nothing comes of it.
pub fn corrupt_vegtable() {
}

/// An article in a newspaper.
pub struct NewsArticle {
    pub headline: String,
    pub location: String,
    pub author: String,
    pub content: String,
}

/// Something that can be summed up in a line of text.
pub trait Summary {
    /// The summary. A type that gives none of its own has this one.
    fn summarize(&self) -> (summary: String)
        default_ensures
            summary@ == "Default summary implementation"@,
    {
        String::from_str("Default summary implementation")
    }
}

/// A news article has no summary of its own.
impl Summary for NewsArticle {

}

/// A passage held for quoting.
pub struct ImportantExcerpt<'a> {
    pub part: &'a str,
}

impl<'a> ImportantExcerpt<'a> {
    /// The line that announces `announcement`, and the passage itself.
    pub fn announce_and_return_part(&self, announcement: &str) -> (r: (String, &str))
        ensures
            r.0@ == "Attention please: "@ + announcement@,
            r.1@ == self.part@,
    {
        (String::from_str("Attention please: ").concat(announcement), self.part)
    }
}

/// The headline under which `summary` is announced.
pub fn breaking_news(summary: &str) -> (line: String)
    ensures
        line@ == "Breaking news! "@ + summary@,
{
    String::from_str("Breaking news! ").concat(summary)
}

/// The lines that announce `item`, in the order in which they are to be
/// shown: "Breaking news!" with whatever summary the item gives of itself,
/// then the announcement of an excerpt.
pub fn notify<T: Summary>(item: &T) -> (lines: Vec<String>)
    ensures
        lines@.len() == 2,
        exists|summary: Seq<char>| lines@[0]@ == "Breaking news! "@ + summary,
        lines@[1]@ == "Attention please: "@ + "some str"@,
{
    let summary = item.summarize();
    let excerpt = ImportantExcerpt { part: "hello" };
    let announced = excerpt.announce_and_return_part("some str");
    let mut lines: Vec<String> = Vec::new();
    lines.push(breaking_news(summary.as_str()));
    lines.push(announced.0);
    lines
}

/// Hands `s` back, after a turn in the garden.
pub fn demo(s: &String) -> (r: &String)
    ensures
        r == s,
{
    pluck_vegtable();
    let _my_article = NewsArticle {
        headline: String::new(),
        location: String::new(),
        author: String::new(),
        content: String::new(),
    };
    s
}

} // verus!
