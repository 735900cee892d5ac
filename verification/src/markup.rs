//! Re-indentation of markup text, one parsed event at a time.

use vstd::prelude::*;

verus! {

#[verifier::external_type_specification]
#[verifier::external_body]
pub struct ExReaderEvent(xml::reader::XmlEvent);

#[verifier::external_type_specification]
#[verifier::external_body]
pub struct ExReaderError(xml::reader::Error);

#[verifier::external_type_specification]
#[verifier::external_body]
pub struct ExWriterEvent<'a>(xml::writer::XmlEvent<'a>);

#[verifier::external_type_specification]
#[verifier::external_body]
#[verifier::reject_recursive_types(W)]
pub struct ExEventWriter<W>(xml::writer::EventWriter<W>);

#[verifier::external_type_specification]
#[verifier::external_body]
pub struct ExWriterError(xml::writer::Error);

/// The events of a document that are still to come: the iterator that
/// xml-rs makes of an `EventReader` over the document's bytes.
#[verifier::external_body]
pub struct EventSource<'a> {
    events: xml::reader::Events<&'a [u8]>,
}

/// What the parser hands out at one step: an event, or its error.
pub type Pulled = Result<xml::reader::XmlEvent, xml::reader::Error>;

/// An event in the form that the writer takes.
pub type Emitted<'a> = xml::writer::XmlEvent<'a>;

/// A writer of markup into memory.
pub type Sink = xml::writer::EventWriter<Vec<u8>>;

/// Why a text could not be re-indented.
#[derive(Debug, Clone, Copy, PartialEq, Eq)]
pub enum FormatError {
    /// The text is not well-formed markup.
    Malformed,
    /// The writer refused an event that the parser had produced.
    Unwritable,
}

/// What the parser hands out for a document, step by step, up to and
/// including the end of the document or the first error.
pub uninterp spec fn document_events(input: Seq<char>) -> Seq<Pulled>;

/// What a source will still hand out, in order.
pub uninterp spec fn upcoming(events: EventSource<'static>) -> Seq<Pulled>;

/// The writer's form of a parsed event, where it has one.
pub uninterp spec fn writer_form(event: xml::reader::XmlEvent) -> Option<Emitted<'static>>;

/// The writer that was just made, indenting or not, with nothing written.
pub uninterp spec fn fresh_writer(indent: bool) -> Sink;

/// The writer after it has taken one more event, where it takes it.
pub uninterp spec fn written(writer: Sink, event: Emitted<'static>) -> Option<Sink>;

/// The bytes that a writer has put into its buffer so far.
pub uninterp spec fn bytes_so_far(writer: Sink) -> Seq<u8>;

/// Bytes read as UTF-8, with the replacement character for what is not.
pub uninterp spec fn lossy_text(bytes: Seq<u8>) -> Seq<char>;

/// The text that a writer has produced so far.
pub open spec fn text_so_far(writer: Sink) -> Seq<char> {
    lossy_text(bytes_so_far(writer))
}

/// Makes an `EventReader` of xml-rs over the bytes of `raw` and turns it
/// into its iterator. What the iterator will hand out depends on the text
/// alone. The iterator ends after the end of the document or after the
/// first error, whichever it reaches.
#[verifier::external_body]
fn open_events<'a>(raw: &'a str) -> (events: EventSource<'a>)
    ensures
        upcoming(events) == document_events(raw@),
{
    EventSource { events: xml::reader::EventReader::new(raw.as_bytes()).into_iter() }
}

/// Calls `next` of the iterator: it hands out the first of what was still
/// to come and keeps the rest, or hands out nothing when nothing was left.
#[verifier::external_body]
fn next_event<'a>(events: &mut EventSource<'a>) -> (pulled: Option<Pulled>)
    ensures
        upcoming(*old(events)).len() == 0 ==> pulled is None && upcoming(*final(events))
            == upcoming(*old(events)),
        upcoming(*old(events)).len() > 0 ==> pulled == Some(upcoming(*old(events))[0])
            && upcoming(*final(events)) == upcoming(*old(events)).skip(1),
{
    events.events.next()
}

/// Calls `XmlEvent::as_writer_event` of xml-rs, which depends on the event
/// alone.
#[verifier::external_body]
fn writer_event<'a>(event: &'a xml::reader::XmlEvent) -> (out: Option<Emitted<'a>>)
    ensures
        out == writer_form(*event),
{
    event.as_writer_event()
}

/// Makes an `EventWriter` of xml-rs over an empty buffer, from the default
/// configuration with `perform_indent` set as asked.
#[verifier::external_body]
fn new_writer(indent: bool) -> (writer: Sink)
    ensures
        writer == fresh_writer(indent),
{
    xml::writer::EmitterConfig::new().perform_indent(indent).create_writer(Vec::new())
}

/// Calls `EventWriter::write` of xml-rs. Whether the writer takes the event,
/// and what it is afterwards, depends on the writer and the event alone.
#[verifier::external_body]
fn write_event<'a>(writer: &mut Sink, event: Emitted<'a>) -> (done: Result<(), xml::writer::Error>)
    ensures
        done is Ok <==> written(*old(writer), event) is Some,
        done is Ok ==> written(*old(writer), event) == Some(*final(writer)),
{
    writer.write(event)
}

/// Calls `EventWriter::into_inner` of xml-rs, which hands out the buffer.
#[verifier::external_body]
fn writer_bytes(writer: Sink) -> (bytes: Vec<u8>)
    ensures
        bytes@ == bytes_so_far(writer),
{
    writer.into_inner()
}

/// Calls `String::from_utf8_lossy`, which depends on the bytes alone.
#[verifier::external_body]
fn text_of_bytes(bytes: &Vec<u8>) -> (text: String)
    ensures
        text@ == lossy_text(bytes@),
{
    String::from_utf8_lossy(bytes).into_owned()
}

/// The writer after one step of the parser went through it: unchanged where
/// the event has no writer's form, an error where the parser failed or the
/// writer refused.
pub open spec fn forwarded(writer: Sink, pulled: Pulled) -> Result<Sink, FormatError> {
    match pulled {
        Err(_) => Err(FormatError::Malformed),
        Ok(event) => match writer_form(event) {
            None => Ok(writer),
            Some(out) => match written(writer, out) {
                Some(next) => Ok(next),
                None => Err(FormatError::Unwritable),
            },
        },
    }
}

/// The text that a writer holds after the steps of the parser went through
/// it in order, or the first error on the way.
pub open spec fn rendered(items: Seq<Pulled>, writer: Sink) -> Result<Seq<char>, FormatError>
    decreases items.len(),
{
    if items.len() == 0 {
        Ok(text_so_far(writer))
    } else {
        match forwarded(writer, items[0]) {
            Ok(next) => rendered(items.skip(1), next),
            Err(error) => Err(error),
        }
    }
}

/// The re-indented form of a text: what an indenting writer holds after
/// every event of the text went through it.
pub open spec fn reformatted(raw: Seq<char>) -> Result<Seq<char>, FormatError> {
    rendered(document_events(raw), fresh_writer(true))
}

/// The text of a result.
pub open spec fn text_result(result: Result<String, FormatError>) -> Result<
    Seq<char>,
    FormatError,
> {
    match result {
        Ok(text) => Ok(text@),
        Err(error) => Err(error),
    }
}

/// Sends one step of the parser through the writer: writes the event in
/// its writer's form, skips an event that has none, and answers a parser's
/// error with `Malformed`, a writer's refusal with `Unwritable`.
pub fn forward(writer: &mut Sink, pulled: Pulled) -> (done: Result<(), FormatError>)
    ensures
        match forwarded(*old(writer), pulled) {
            Ok(next) => done is Ok && *final(writer) == next,
            Err(error) => done == Err::<(), FormatError>(error),
        },
{
    match pulled {
        Err(_) => Err(FormatError::Malformed),
        Ok(event) => match writer_event(&event) {
            None => Ok(()),
            Some(out) => match write_event(writer, out) {
                Ok(()) => Ok(()),
                Err(_) => Err(FormatError::Unwritable),
            },
        },
    }
}

/// Re-indents markup text: parses it event by event and writes each event
/// through an indenting writer. Fails with `Malformed` where the text is not
/// well-formed markup.
pub fn pretty_print_xml(raw: &str) -> (result: Result<String, FormatError>)
    ensures
        text_result(result) == reformatted(raw@),
{
    let mut events = open_events(raw);
    let mut writer = new_writer(true);
    loop
        invariant
            rendered(upcoming(events), writer) == reformatted(raw@),
        decreases upcoming(events).len(),
    {
        match next_event(&mut events) {
            None => {
                let bytes = writer_bytes(writer);
                return Ok(text_of_bytes(&bytes));
            },
            Some(pulled) => {
                match forward(&mut writer, pulled) {
                    Ok(()) => {},
                    Err(error) => {
                        return Err(error);
                    },
                }
            },
        }
    }
}

/// Whether the parser failed at none of its steps.
pub open spec fn all_parsed(items: Seq<Pulled>) -> bool {
    forall|step: int| 0 <= step < items.len() ==> (#[trigger] items[step]) is Ok
}

/// Whether the writer took every event that came before the parser's first
/// error, each after those before it.
pub open spec fn all_taken(items: Seq<Pulled>, writer: Sink) -> bool
    decreases items.len(),
{
    if items.len() == 0 {
        true
    } else {
        match items[0] {
            Err(_) => true,
            Ok(_) => match forwarded(writer, items[0]) {
                Ok(next) => all_taken(items.skip(1), next),
                Err(_) => false,
            },
        }
    }
}

/// When each outcome comes. A text is re-indented exactly when the parser
/// fails at no step and the writer takes every event. It is `Malformed`
/// exactly when the parser fails and the writer took all that came before.
/// It is `Unwritable` exactly when the writer refuses an event.
pub proof fn lemma_outcomes(raw: Seq<char>)
    ensures
        reformatted(raw) is Ok <==> all_parsed(document_events(raw)) && all_taken(
            document_events(raw),
            fresh_writer(true),
        ),
        reformatted(raw) == Err::<Seq<char>, FormatError>(FormatError::Malformed) <==> !all_parsed(
            document_events(raw),
        ) && all_taken(document_events(raw), fresh_writer(true)),
        reformatted(raw) == Err::<Seq<char>, FormatError>(FormatError::Unwritable) <==> !all_taken(
            document_events(raw),
            fresh_writer(true),
        ),
{
    lemma_rendered_outcomes(document_events(raw), fresh_writer(true));
}

proof fn lemma_rendered_outcomes(items: Seq<Pulled>, writer: Sink)
    ensures
        rendered(items, writer) is Ok <==> all_parsed(items) && all_taken(items, writer),
        rendered(items, writer) == Err::<Seq<char>, FormatError>(FormatError::Malformed)
            <==> !all_parsed(items) && all_taken(items, writer),
        rendered(items, writer) == Err::<Seq<char>, FormatError>(FormatError::Unwritable)
            <==> !all_taken(items, writer),
    decreases items.len(),
{
    if items.len() > 0 {
        let rest = items.skip(1);
        assert forall|step: int| 0 <= step < rest.len() implies rest[step] == items[step + 1] by {}
        match items[0] {
            Err(_) => {
                assert(!all_parsed(items));
            },
            Ok(_) => {
                match forwarded(writer, items[0]) {
                    Ok(next) => {
                        lemma_rendered_outcomes(rest, next);
                        if all_parsed(rest) {
                            assert forall|step: int| 0 <= step < items.len() implies (
                            #[trigger] items[step]) is Ok by {
                                if step > 0 {
                                    assert(rest[step - 1] is Ok);
                                }
                            }
                        } else {
                            let bad = choose|step: int|
                                0 <= step < rest.len() && !((#[trigger] rest[step]) is Ok);
                            assert(!(items[bad + 1] is Ok));
                        }
                    },
                    Err(_) => {},
                }
            },
        }
    }
}

/// Text that is not well-formed is never re-indented: where the parser
/// fails at some step, the result is an error.
pub proof fn lemma_malformed_is_an_error(raw: Seq<char>, step: int)
    requires
        0 <= step < document_events(raw).len(),
        document_events(raw)[step] is Err,
    ensures
        reformatted(raw) is Err,
{
    lemma_rendered_error(document_events(raw), fresh_writer(true), step);
}

proof fn lemma_rendered_error(items: Seq<Pulled>, writer: Sink, step: int)
    requires
        0 <= step < items.len(),
        items[step] is Err,
    ensures
        rendered(items, writer) is Err,
    decreases items.len(),
{
    if step > 0 {
        match forwarded(writer, items[0]) {
            Ok(next) => {
                assert(items.skip(1)[step - 1] == items[step]);
                lemma_rendered_error(items.skip(1), next, step - 1);
            },
            Err(_) => {},
        }
    }
}

} // verus!
