//! The output files of a build: how they are named, and what their lines
//! hold. Every list is written in three formats, with its domains in the
//! same order in each.

use crate::text::strings;
use vstd::prelude::*;
use vstd::string::StringExecFns;

verus! {

/// A format in which a list is written.
#[derive(Debug, Clone, Copy, PartialEq, Eq, Structural)]
pub enum OutputFormat {
    Hosts,
    Plain,
    Adblock,
}

/// The name of the list of a category; sources without a category make
/// the list `uncategorized`.
pub open spec fn list_name_of_category(category: Option<Seq<char>>) -> Seq<char> {
    match category {
        Some(c) => c,
        None => "uncategorized"@,
    }
}

/// The line of `domain` in the format `format`, with its line feed.
pub open spec fn line_of(format: OutputFormat, domain: Seq<char>) -> Seq<char> {
    match format {
        OutputFormat::Hosts => "0.0.0.0 "@ + domain + "\n"@,
        OutputFormat::Plain => domain + "\n"@,
        OutputFormat::Adblock => "||"@ + domain + "^\n"@,
    }
}

/// The lines of `domains` in the format `format`, in their order.
pub open spec fn lines_of(format: OutputFormat, domains: Seq<Seq<char>>) -> Seq<char>
    decreases domains.len(),
{
    if domains.len() == 0 {
        Seq::empty()
    } else {
        lines_of(format, domains.drop_last()) + line_of(format, domains.last())
    }
}

impl OutputFormat {
    /// The name of the format.
    pub open spec fn spec_name(self) -> Seq<char> {
        match self {
            OutputFormat::Hosts => "hosts"@,
            OutputFormat::Plain => "plain"@,
            OutputFormat::Adblock => "adblock"@,
        }
    }

    /// The name of the format.
    pub fn name(&self) -> (n: &'static str)
        ensures
            n@ == self.spec_name(),
    {
        match self {
            OutputFormat::Hosts => "hosts",
            OutputFormat::Plain => "plain",
            OutputFormat::Adblock => "adblock",
        }
    }

    /// The three formats, in the order in which they are written.
    pub fn all() -> (r: Vec<OutputFormat>)
        ensures
            r@ == seq![OutputFormat::Hosts, OutputFormat::Plain, OutputFormat::Adblock],
    {
        let mut r: Vec<OutputFormat> = Vec::new();
        r.push(OutputFormat::Hosts);
        r.push(OutputFormat::Plain);
        r.push(OutputFormat::Adblock);
        assert(r@ =~= seq![OutputFormat::Hosts, OutputFormat::Plain, OutputFormat::Adblock]);
        r
    }

    /// The name of the file that holds the list `list` in this format.
    pub fn file_name(&self, list: &str) -> (name: String)
        ensures
            name@ == list@ + "_"@ + self.spec_name() + ".txt.gz"@,
    {
        let mut name = list.to_string();
        name.append("_");
        name.append(self.name());
        name.append(".txt.gz");
        name
    }

    /// The line of `domain` in this format, with its line feed.
    pub fn line(&self, domain: &str) -> (line: String)
        ensures
            line@ == line_of(*self, domain@),
    {
        match self {
            OutputFormat::Hosts => {
                let mut line = "0.0.0.0 ".to_string();
                line.append(domain);
                line.append("\n");
                line
            },
            OutputFormat::Plain => {
                let mut line = domain.to_string();
                line.append("\n");
                line
            },
            OutputFormat::Adblock => {
                let mut line = "||".to_string();
                line.append(domain);
                line.append("^\n");
                line
            },
        }
    }

    /// The text of a file in this format: the lines of `domains`, in
    /// their order.
    pub fn render(&self, domains: &Vec<String>) -> (text: String)
        ensures
            text@ == lines_of(*self, strings(domains@)),
    {
        let mut text = String::new();
        let mut i: usize = 0;
        proof {
            assert(strings(domains@).take(0) =~= Seq::<Seq<char>>::empty());
        }
        while i < domains.len()
            invariant
                i <= domains.len(),
                text@ == lines_of(*self, strings(domains@).take(i as int)),
            decreases domains.len() - i,
        {
            proof {
                let p = strings(domains@).take(i + 1);
                assert(p.drop_last() =~= strings(domains@).take(i as int));
                assert(p.last() == domains@[i as int]@);
            }
            let line = self.line(domains[i].as_str());
            text.append(line.as_str());
            i += 1;
        }
        assert(strings(domains@).take(domains.len() as int) =~= strings(domains@));
        text
    }
}

/// The name of the list of a category.
pub fn list_name(category: &Option<String>) -> (name: String)
    ensures
        name@ == list_name_of_category(
            match *category {
                Some(c) => Some(c@),
                None => None,
            },
        ),
{
    match category {
        Some(c) => c.clone(),
        None => "uncategorized".to_string(),
    }
}

} // verus!
