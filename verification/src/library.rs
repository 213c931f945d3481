//! The catalog tree: categories and sound leaves, with a mathematical model
//! (`EntryModel`) that all contracts are stated over.

use vstd::prelude::*;
use vstd::string::StringExecFns;

verus! {

/// The decimal digit character of `d` (0 to 9).
pub open spec fn dec_digit(d: int) -> char {
    if d == 0 {
        '0'
    } else if d == 1 {
        '1'
    } else if d == 2 {
        '2'
    } else if d == 3 {
        '3'
    } else if d == 4 {
        '4'
    } else if d == 5 {
        '5'
    } else if d == 6 {
        '6'
    } else if d == 7 {
        '7'
    } else if d == 8 {
        '8'
    } else {
        '9'
    }
}

/// The decimal digits of a nonnegative number, most significant first.
pub open spec fn dec_str(n: int) -> Seq<char>
    decreases n,
{
    if n < 10 {
        seq![dec_digit(n)]
    } else {
        dec_str(n / 10).push(dec_digit(n % 10))
    }
}

/// The single-character string of the digit `d`.
fn digit_str(d: u32) -> (r: &'static str)
    requires
        d < 10,
    ensures
        r@ == seq![dec_digit(d as int)],
{
    proof {
        reveal_strlit("0");
        reveal_strlit("1");
        reveal_strlit("2");
        reveal_strlit("3");
        reveal_strlit("4");
        reveal_strlit("5");
        reveal_strlit("6");
        reveal_strlit("7");
        reveal_strlit("8");
        reveal_strlit("9");
    }
    match d {
        0 => "0",
        1 => "1",
        2 => "2",
        3 => "3",
        4 => "4",
        5 => "5",
        6 => "6",
        7 => "7",
        8 => "8",
        _ => "9",
    }
}

/// The decimal form of `n`.
pub fn u32_to_string(n: u32) -> (s: String)
    ensures
        s@ == dec_str(n as int),
    decreases n,
{
    if n < 10 {
        let mut s = String::new();
        s.append(digit_str(n));
        proof {
            assert(s@ =~= seq![dec_digit(n as int)]);
        }
        s
    } else {
        let mut s = u32_to_string(n / 10);
        s.append(digit_str(n % 10));
        proof {
            assert(s@ =~= dec_str((n / 10) as int).push(dec_digit((n % 10) as int)));
        }
        s
    }
}

/// One node of the catalog tree: either a category holding further entries,
/// or a sound leaf with its size and duration.
pub enum LibraryEntry {
    Category { id: u32, name: String, parent: u32, children: Vec<LibraryEntry> },
    Sound { id: u32, name: String, parent: u32, bytes: u64, duration: i64 },
}

/// The mathematical model of a catalog tree node.
pub enum EntryModel {
    Category { id: u32, name: Seq<char>, parent: u32, children: Seq<EntryModel> },
    Sound { id: u32, name: Seq<char>, parent: u32, bytes: u64, duration: i64 },
}

/// The model of an entry: names become character sequences and child vectors
/// become sequences of models.
pub open spec fn entry_model(e: LibraryEntry) -> EntryModel
    decreases e,
{
    match e {
        LibraryEntry::Sound { id, name, parent, bytes, duration } => EntryModel::Sound {
            id,
            name: name@,
            parent,
            bytes,
            duration,
        },
        LibraryEntry::Category { id, name, parent, children } => EntryModel::Category {
            id,
            name: name@,
            parent,
            children: children_model(children@),
        },
    }
}

/// The models of a sequence of entries, in order.
pub open spec fn children_model(s: Seq<LibraryEntry>) -> Seq<EntryModel>
    decreases s,
{
    if s.len() == 0 {
        Seq::empty()
    } else {
        children_model(s.drop_last()).push(entry_model(s.last()))
    }
}

impl View for LibraryEntry {
    type V = EntryModel;

    open spec fn view(&self) -> EntryModel {
        entry_model(*self)
    }
}

pub proof fn lemma_children_model_concat(a: Seq<LibraryEntry>, b: Seq<LibraryEntry>)
    ensures
        children_model(a + b) == children_model(a) + children_model(b),
    decreases b,
{
    if b.len() == 0 {
        assert(a + b =~= a);
        assert(children_model(a) + children_model(b) =~= children_model(a));
    } else {
        lemma_children_model_concat(a, b.drop_last());
        assert((a + b).drop_last() =~= a + b.drop_last());
        assert((a + b).last() == b.last());
        assert(children_model(a) + children_model(b) =~= (children_model(a) + children_model(
            b.drop_last(),
        )).push(entry_model(b.last())));
    }
}

pub proof fn lemma_children_model_push(s: Seq<LibraryEntry>, x: LibraryEntry)
    ensures
        children_model(s.push(x)) == children_model(s).push(entry_model(x)),
{
    assert(s.push(x).drop_last() =~= s);
    assert(s.push(x).last() == x);
}

pub proof fn lemma_children_model_remove(s: Seq<LibraryEntry>, i: int)
    requires
        0 <= i < s.len(),
    ensures
        children_model(s.remove(i)) == children_model(s).remove(i),
{
    lemma_children_model_len(s);
    lemma_children_model_len(s.remove(i));
    assert(children_model(s.remove(i)) =~= children_model(s).remove(i));
}

pub proof fn lemma_children_model_len(s: Seq<LibraryEntry>)
    ensures
        children_model(s).len() == s.len(),
        forall|i: int| 0 <= i < s.len() ==> children_model(s)[i] == entry_model(s[i]),
    decreases s,
{
    if s.len() > 0 {
        lemma_children_model_len(s.drop_last());
        assert forall|i: int| 0 <= i < s.len() implies children_model(s)[i] == entry_model(
            s[i],
        ) by {
            if i < s.len() - 1 {
                assert(s.drop_last()[i] == s[i]);
            } else {
                assert(s.last() == s[i]);
            }
        }
    }
}

impl EntryModel {
    /// The identifier of the modelled node.
    pub open spec fn id(self) -> u32 {
        match self {
            EntryModel::Category { id, .. } => id,
            EntryModel::Sound { id, .. } => id,
        }
    }

    /// The name of the modelled node.
    pub open spec fn name(self) -> Seq<char> {
        match self {
            EntryModel::Category { name, .. } => name,
            EntryModel::Sound { name, .. } => name,
        }
    }

    /// The identifier of the owning category (0 for the synthetic root).
    pub open spec fn parent(self) -> u32 {
        match self {
            EntryModel::Category { parent, .. } => parent,
            EntryModel::Sound { parent, .. } => parent,
        }
    }

    /// The byte size of a sound; a category has none and defaults to 0.
    pub open spec fn bytes(self) -> u64 {
        match self {
            EntryModel::Category { .. } => 0,
            EntryModel::Sound { bytes, .. } => bytes,
        }
    }

    /// The duration of a sound; a category has none and defaults to 0.
    pub open spec fn duration(self) -> i64 {
        match self {
            EntryModel::Category { .. } => 0,
            EntryModel::Sound { duration, .. } => duration,
        }
    }

    /// Whether the modelled node is a category.
    pub open spec fn is_category(self) -> bool {
        self is Category
    }

    /// The children of a category; a sound has none.
    pub open spec fn children(self) -> Seq<EntryModel> {
        match self {
            EntryModel::Category { children, .. } => children,
            EntryModel::Sound { .. } => Seq::empty(),
        }
    }
}

impl LibraryEntry {
    /// The identifier of this entry.
    pub fn id(&self) -> (r: u32)
        ensures
            r == self@.id(),
    {
        match self {
            LibraryEntry::Category { id, .. } => *id,
            LibraryEntry::Sound { id, .. } => *id,
        }
    }

    /// The name of this entry.
    pub fn name(&self) -> (r: &str)
        ensures
            r@ == self@.name(),
    {
        match self {
            LibraryEntry::Category { name, .. } => name.as_str(),
            LibraryEntry::Sound { name, .. } => name.as_str(),
        }
    }

    /// The identifier of the owning category (0 for the synthetic root).
    pub fn parent(&self) -> (r: u32)
        ensures
            r == self@.parent(),
    {
        match self {
            LibraryEntry::Category { parent, .. } => *parent,
            LibraryEntry::Sound { parent, .. } => *parent,
        }
    }

    /// The byte size of a sound; 0 for a category.
    pub fn bytes(&self) -> (r: u64)
        ensures
            r == self@.bytes(),
    {
        match self {
            LibraryEntry::Category { .. } => 0,
            LibraryEntry::Sound { bytes, .. } => *bytes,
        }
    }

    /// The duration of a sound; 0 for a category.
    pub fn duration(&self) -> (r: i64)
        ensures
            r == self@.duration(),
    {
        match self {
            LibraryEntry::Category { .. } => 0,
            LibraryEntry::Sound { duration, .. } => *duration,
        }
    }

    /// A deep copy of this entry, equal to it in the model.
    pub fn duplicate(&self) -> (r: LibraryEntry)
        ensures
            r@ == self@,
        decreases *self,
    {
        match self {
            LibraryEntry::Sound { id, name, parent, bytes, duration } => LibraryEntry::Sound {
                id: *id,
                name: name.clone(),
                parent: *parent,
                bytes: *bytes,
                duration: *duration,
            },
            LibraryEntry::Category { id, name, parent, children } => {
                let ghost cm = children_model(children@);
                proof {
                    lemma_children_model_len(children@);
                    assert(children.len() == children@.len());
                    assert(cm.take(0) =~= Seq::<EntryModel>::empty());
                }
                let mut kids: Vec<LibraryEntry> = Vec::new();
                let mut i: usize = 0;
                while i < children.len()
                    invariant
                        self is Category,
                        self->Category_children == *children,
                        i <= children@.len(),
                        cm == children_model(children@),
                        cm.len() == children@.len(),
                        children_model(kids@) == cm.take(i as int),
                    decreases children@.len() - i,
                {
                    proof {
                        assert(decreases_to!(*self => self->Category_children));
                        assert(decreases_to!(self->Category_children => self->Category_children@));
                        assert(decreases_to!(
                            self->Category_children@ => self->Category_children@[i as int]
                        ));
                        assert(self->Category_children@[i as int] == children@[i as int]);
                    }
                    let copy = children[i].duplicate();
                    let ghost pre = kids@;
                    kids.push(copy);
                    proof {
                        lemma_children_model_push(pre, copy);
                        lemma_children_model_len(children@);
                        assert(children_model(kids@) =~= cm.take(i + 1));
                    }
                    i = i + 1;
                }
                proof {
                    assert(cm.take(cm.len() as int) =~= cm);
                }
                LibraryEntry::Category {
                    id: *id,
                    name: name.clone(),
                    parent: *parent,
                    children: kids,
                }
            },
        }
    }

    /// The display name of this entry: its name, a space and a number sign,
    /// then its identifier in decimal — deterministic in the entry's fields.
    pub fn pretty_name(&self) -> (r: String)
        ensures
            r@ == self@.name() + seq![' ', '#'] + dec_str(self@.id() as int),
    {
        let mut s = String::from_str(self.name());
        proof {
            reveal_strlit(" #");
        }
        s.append(" #");
        let digits = u32_to_string(self.id());
        s.append(digits.as_str());
        proof {
            assert(" #"@ =~= seq![' ', '#']);
        }
        s
    }

    /// The number of immediate children; 0 for a sound.
    pub fn child_count(&self) -> (r: usize)
        ensures
            r == self@.children().len(),
    {
        match self {
            LibraryEntry::Category { children, .. } => {
                proof {
                    lemma_children_model_len(children@);
                }
                children.len()
            },
            LibraryEntry::Sound { .. } => 0,
        }
    }

    /// Whether this entry is a category.
    pub fn is_category(&self) -> (r: bool)
        ensures
            r == self@.is_category(),
    {
        match self {
            LibraryEntry::Category { .. } => true,
            LibraryEntry::Sound { .. } => false,
        }
    }
}

} // verus!
