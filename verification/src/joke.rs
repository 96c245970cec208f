//! A joke as the API answers it, and the text it is shown as.

use vstd::prelude::*;
use vstd::string::StringExecFns;
use crate::filters::text_of;
use crate::text::LINE_ENDING;

verus! {

/// The API's answer. A single-part joke sets `joke`, a two-part joke sets
/// `setup` and `delivery`; any of the three may be missing.
#[derive(Clone, Debug)]
pub struct Joke {
    pub joke: Option<String>,
    pub setup: Option<String>,
    pub delivery: Option<String>,
}

/// A joke as plain sequences of characters.
pub struct JokeView {
    pub joke: Option<Seq<char>>,
    pub setup: Option<Seq<char>>,
    pub delivery: Option<Seq<char>>,
}

impl View for Joke {
    type V = JokeView;

    open spec fn view(&self) -> JokeView {
        JokeView {
            joke: text_of(self.joke),
            setup: text_of(self.setup),
            delivery: text_of(self.delivery),
        }
    }
}

/// A part that is present, followed by a line feed; nothing for a part that
/// is missing.
pub open spec fn content_line(part: Option<Seq<char>>) -> Seq<char> {
    match part {
        Some(t) => t + "\n"@,
        None => Seq::<char>::empty(),
    }
}

/// The text a joke is shown as: the joke, the setup and the delivery, each
/// on a line of its own where present, then one line ending.
pub open spec fn rendered(j: JokeView) -> Seq<char> {
    content_line(j.joke) + content_line(j.setup) + content_line(j.delivery) + LINE_ENDING@
}

/// Appends `part` and a line feed.
fn push_content_line(text: &mut String, part: &str)
    ensures
        final(text)@ == old(text)@ + content_line(Some(part@)),
{
    text.append(part);
    text.append("\n");
    assert(final(text)@ =~= old(text)@ + (part@ + "\n"@));
}

/// Lays a joke out as the text that is printed and exported.
pub fn render_joke(joke: &Joke) -> (r: String)
    ensures
        r@ == rendered(joke@),
{
    let mut r = String::new();
    assert(r@ =~= content_line(None));
    if let Some(j) = &joke.joke {
        push_content_line(&mut r, j.as_str());
        assert(r@ =~= content_line(joke@.joke));
    }
    if let Some(s) = &joke.setup {
        push_content_line(&mut r, s.as_str());
    }
    assert(r@ =~= content_line(joke@.joke) + content_line(joke@.setup));
    if let Some(d) = &joke.delivery {
        push_content_line(&mut r, d.as_str());
    }
    assert(r@ =~= content_line(joke@.joke) + content_line(joke@.setup) + content_line(
        joke@.delivery,
    ));
    r.append(LINE_ENDING);
    r
}

/// A single-part joke is shown as one content line and the closing line
/// ending.
pub proof fn lemma_single_part(text: Seq<char>)
    ensures
        rendered(JokeView { joke: Some(text), setup: None, delivery: None }) == text + "\n"@
            + LINE_ENDING@,
{
    assert(rendered(JokeView { joke: Some(text), setup: None, delivery: None }) =~= text + "\n"@
        + LINE_ENDING@);
}

/// A two-part joke is shown as two content lines, the setup before the
/// delivery, and the closing line ending.
pub proof fn lemma_two_part(setup: Seq<char>, delivery: Seq<char>)
    ensures
        rendered(JokeView { joke: None, setup: Some(setup), delivery: Some(delivery) }) == setup
            + "\n"@ + delivery + "\n"@ + LINE_ENDING@,
{
    assert(rendered(JokeView { joke: None, setup: Some(setup), delivery: Some(delivery) })
        =~= setup + "\n"@ + delivery + "\n"@ + LINE_ENDING@);
}

} // verus!
