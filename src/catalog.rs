//! The ordered list of class names that maps a detector's class id to a label.
use vstd::prelude::*;
use vstd::string::StringExecFns;
use crate::text::{first_index_of, split_first, split_last};

verus! {

/// `l` without one trailing carriage return.
pub open spec fn strip_cr(l: Seq<char>) -> Seq<char> {
    if l.len() > 0 && l.last() == '\r' {
        l.drop_last()
    } else {
        l
    }
}

/// The lines of `s`, read as a line reader reads them: split at each `\n`, a `\r`
/// removed only where a `\n` follows it, no line after a final `\n`, empty lines
/// kept.
pub open spec fn lines_of(s: Seq<char>) -> Seq<Seq<char>>
    decreases s.len(),
{
    if s.len() == 0 {
        seq![]
    } else {
        let k = first_index_of(s, '\n');
        if 0 <= k < s.len() {
            seq![strip_cr(s.subrange(0, k))] + lines_of(s.subrange(k + 1, s.len() as int))
        } else {
            seq![s]
        }
    }
}

/// The characters of each string of `v`.
pub open spec fn texts(v: Seq<String>) -> Seq<Seq<char>> {
    v.map_values(|s: String| s@)
}

/// Class names in id order; never changed once loaded.
pub struct ClassCatalog {
    names: Vec<String>,
}

impl View for ClassCatalog {
    type V = Seq<Seq<char>>;

    closed spec fn view(&self) -> Seq<Seq<char>> {
        texts(self.names@)
    }
}

/// `line` without one trailing `\r`.
fn trim_cr(line: &str) -> (r: &str)
    ensures
        r@ == strip_cr(line@),
{
    match split_last(line, '\r') {
        Some((head, tail)) => {
            if tail.is_empty() {
                proof {
                    assert(line@.drop_last() =~= head@);
                }
                head
            } else {
                proof {
                    assert(line@.last() == tail@.last());
                }
                line
            }
        },
        None => {
            proof {
                if line@.len() > 0 {
                    assert(line@[line@.len() - 1] != '\r');
                }
            }
            line
        },
    }
}

impl ClassCatalog {
    /// A catalog of the given names; id `i` is `names[i]`.
    pub fn new(names: Vec<String>) -> (r: ClassCatalog)
        ensures
            r@ == texts(names@),
    {
        ClassCatalog { names }
    }

    /// A catalog of the lines of `text`, one name per line, in order.
    pub fn from_text(text: &str) -> (r: ClassCatalog)
        ensures
            r@ == lines_of(text@),
    {
        let mut names: Vec<String> = Vec::new();
        let mut rest: &str = text;
        loop
            invariant_except_break
                lines_of(text@) == texts(names@) + lines_of(rest@),
            ensures
                lines_of(text@) == texts(names@),
            decreases rest@.len(),
        {
            if rest.is_empty() {
                proof {
                    assert(texts(names@) + lines_of(rest@) =~= texts(names@));
                }
                break;
            }
            match split_first(rest, '\n') {
                Some((line, tail)) => {
                    let ghost old_names = names@;
                    let ghost old_rest = rest@;
                    proof {
                        assert(old_rest.subrange(0, line@.len() as int) =~= line@);
                        assert(old_rest.subrange(line@.len() as int + 1, old_rest.len() as int)
                            =~= tail@);
                    }
                    names.push(String::from_str(trim_cr(line)));
                    rest = tail;
                    proof {
                        assert(texts(names@) =~= texts(old_names).push(strip_cr(line@)));
                        assert(texts(names@) + lines_of(rest@) =~= texts(old_names) + lines_of(
                            old_rest,
                        ));
                    }
                },
                None => {
                    let ghost old_names = names@;
                    names.push(String::from_str(rest));
                    proof {
                        assert(texts(names@) =~= texts(old_names).push(rest@));
                        assert(texts(names@) =~= texts(old_names) + lines_of(rest@));
                    }
                    break;
                },
            }
        }
        ClassCatalog { names }
    }

    /// The class names, in id order.
    pub fn names(&self) -> (r: &Vec<String>)
        ensures
            texts(r@) == self@,
    {
        &self.names
    }

    /// Number of classes.
    pub fn len(&self) -> (r: usize)
        ensures
            r == self@.len(),
    {
        self.names.len()
    }

    /// The label of class `id`, or `None` where `id` is outside the catalog.
    pub fn label(&self, id: i32) -> (r: Option<String>)
        ensures
            match r {
                Some(l) => 0 <= id < self@.len() && l@ == self@[id as int],
                None => !(0 <= id < self@.len()),
            },
    {
        if id < 0 || id as usize >= self.names.len() {
            None
        } else {
            Some(self.names[id as usize].clone())
        }
    }
}

} // verus!
