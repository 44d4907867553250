//! The annotated failure value and its rendering.
//!
//! A failure carries an underlying cause description and an ordered list of
//! labeled diagnostic values.  Its rendered text is the description followed
//! by one `-with <label>: <value>` line per annotation, in the order the
//! annotations were attached.

use vstd::prelude::*;

verus! {

/// One labeled diagnostic value attached to a failure, such as the path an
/// operation was applied to.
#[derive(Debug)]
pub struct Annotation {
    pub label: String,
    pub value: String,
}

/// A failure value: a cause description plus an ordered list of labeled
/// diagnostic values.  Attaching a further annotation is additive: it appends
/// a pair and leaves the earlier ones in place.
#[derive(Debug)]
pub struct PathError {
    pub description: String,
    pub annotations: Vec<Annotation>,
}

/// The label/value text pairs of a list of annotations.
pub open spec fn notes_of(annotations: Seq<Annotation>) -> Seq<(Seq<char>, Seq<char>)> {
    annotations.map_values(|a: Annotation| (a.label@, a.value@))
}

/// The rendered line contributed by one annotation.
pub open spec fn annotation_line(label: Seq<char>, value: Seq<char>) -> Seq<char> {
    "\n-with "@ + label + ": "@ + value
}

/// The rendered text of a description together with annotation pairs: the
/// description, then one line per pair, in attachment order.
pub open spec fn rendered_text(
    description: Seq<char>,
    notes: Seq<(Seq<char>, Seq<char>)>,
) -> Seq<char>
    decreases notes.len(),
{
    if notes.len() == 0 {
        description
    } else {
        rendered_text(description, notes.drop_last()) + annotation_line(
            notes.last().0,
            notes.last().1,
        )
    }
}

/// The rendered text of an error value.
pub open spec fn rendered(e: PathError) -> Seq<char> {
    rendered_text(e.description@, notes_of(e.annotations@))
}

/// Holds when `e` consists of the description `description` and exactly one
/// annotation, `label` paired with `value`.
pub open spec fn is_annotated(
    e: PathError,
    description: Seq<char>,
    label: Seq<char>,
    value: Seq<char>,
) -> bool {
    &&& e.description@ == description
    &&& notes_of(e.annotations@) =~= seq![(label, value)]
}

/// Holds when `e` consists of the description `description` and exactly two
/// annotations, in the order given.
pub open spec fn is_annotated2(
    e: PathError,
    description: Seq<char>,
    label1: Seq<char>,
    value1: Seq<char>,
    label2: Seq<char>,
    value2: Seq<char>,
) -> bool {
    &&& e.description@ == description
    &&& notes_of(e.annotations@) =~= seq![(label1, value1), (label2, value2)]
}

impl PathError {
    /// A failure with the given cause description and no annotations yet.
    pub fn new(description: String) -> (r: Self)
        ensures
            r.description@ == description@,
            r.annotations@.len() == 0,
    {
        PathError { description, annotations: Vec::new() }
    }

    /// Attach one more labeled diagnostic value; earlier annotations are kept
    /// and the new pair renders after them.
    pub fn with(self, label: String, value: String) -> (r: Self)
        ensures
            r.description@ == self.description@,
            notes_of(r.annotations@) =~= notes_of(self.annotations@).push((label@, value@)),
    {
        let mut annotations = self.annotations;
        annotations.push(Annotation { label, value });
        PathError { description: self.description, annotations }
    }

    /// The rendered text: the description, then one `-with <label>: <value>`
    /// line per annotation, in attachment order.
    pub fn render(&self) -> (r: String)
        ensures
            r@ == rendered(*self),
    {
        let ghost all_notes = notes_of(self.annotations@);
        let mut r = self.description.clone();
        let mut i: usize = 0;
        while i < self.annotations.len()
            invariant
                i <= self.annotations.len(),
                all_notes == notes_of(self.annotations@),
                r@ == rendered_text(self.description@, all_notes.take(i as int)),
            decreases self.annotations.len() - i,
        {
            let a = &self.annotations[i];
            r.append("\n-with ");
            r.append(a.label.as_str());
            r.append(": ");
            r.append(a.value.as_str());
            proof {
                assert(all_notes.take(i + 1).drop_last() =~= all_notes.take(i as int));
                assert(all_notes.take(i + 1).last() == (a.label@, a.value@));
            }
            i = i + 1;
        }
        proof {
            assert(all_notes.take(self.annotations@.len() as int) =~= all_notes);
        }
        r
    }
}

/// A failure with exactly one annotation renders as its description followed
/// by the one `-with <label>: <value>` line.
pub proof fn lemma_render_single(
    e: PathError,
    description: Seq<char>,
    label: Seq<char>,
    value: Seq<char>,
)
    requires
        is_annotated(e, description, label, value),
    ensures
        rendered(e) == description + annotation_line(label, value),
{
    let notes = notes_of(e.annotations@);
    assert(notes.drop_last() =~= Seq::<(Seq<char>, Seq<char>)>::empty());
    assert(notes.last() == (label, value));
    assert(rendered_text(description, Seq::<(Seq<char>, Seq<char>)>::empty()) == description);
    assert(rendered_text(description, notes) == rendered_text(description, notes.drop_last())
        + annotation_line(label, value));
}

/// A failure with exactly two annotations renders as its description
/// followed by the two annotation lines, in attachment order.
pub proof fn lemma_render_double(
    e: PathError,
    description: Seq<char>,
    label1: Seq<char>,
    value1: Seq<char>,
    label2: Seq<char>,
    value2: Seq<char>,
)
    requires
        is_annotated2(e, description, label1, value1, label2, value2),
    ensures
        rendered(e) == description + annotation_line(label1, value1) + annotation_line(
            label2,
            value2,
        ),
{
    let notes = notes_of(e.annotations@);
    assert(notes.drop_last() =~= seq![(label1, value1)]);
    assert(notes.drop_last().drop_last() =~= Seq::<(Seq<char>, Seq<char>)>::empty());
    assert(notes.last() == (label2, value2));
    assert(notes.drop_last().last() == (label1, value1));
    assert(rendered_text(description, Seq::<(Seq<char>, Seq<char>)>::empty()) == description);
    assert(rendered_text(description, notes.drop_last()) == rendered_text(
        description,
        notes.drop_last().drop_last(),
    ) + annotation_line(label1, value1));
    assert(rendered_text(description, notes) == rendered_text(description, notes.drop_last())
        + annotation_line(label2, value2));
}

/// The generic system-error type failures can be converted into.
#[verifier::external_type_specification]
#[verifier::external_body]
pub struct ExIoError(std::io::Error);

/// Relies on std::io::Error::new: builds an error of the custom kind whose
/// message, as shown by its text form, is the given string.
#[verifier::external_body]
fn io_error_with_message(msg: String) -> std::io::Error {
    std::io::Error::new(std::io::ErrorKind::Other, msg)
}

impl PathError {
    /// The failure as a generic system error; the error's message is the
    /// rendered text, and the annotation structure is discarded.
    pub fn into_io_error(self) -> std::io::Error {
        io_error_with_message(self.render())
    }
}

} // verus!
