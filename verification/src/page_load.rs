//! What the browser keeps of a page's stylesheets and images when it renders a
//! page itself: resources of the document's origin only, within the page's
//! byte budget, stylesheets that are UTF-8 and images that decode; everything
//! else is reported. The transfers are made by the application.

use vstd::prelude::*;

use crate::net::{LoadError, ResponseBytes};
use crate::page::{same_origin, same_origin_spec};
use crate::runtime::{decode_image_dimensions, image_fallback, spec_image_decode, ImageBox};
use crate::text::{push_char, utf8_text};
use crate::url::WebUrl;

verus! {

/// The largest image that a page loads.
pub const IMAGE_LIMIT: usize = 20971520;

/// The bytes of a page's document, stylesheets and images together.
pub const PAGE_LIMIT: usize = 52428800;

/// `a + b`, or the largest `usize`.
pub open spec fn saturating_sum(a: int, b: int) -> int {
    if a + b > usize::MAX {
        usize::MAX as int
    } else {
        a + b
    }
}

/// A page's resources so far: the bytes counted against the budget, the
/// style text, the image bodies by URL and the diagnostics.
#[derive(Debug)]
pub struct PageResources {
    total: usize,
    css: String,
    images: Vec<(String, Vec<u8>)>,
    diagnostics: Vec<String>,
}

/// The texts of a list of strings.
pub open spec fn texts(strings: Seq<String>) -> Seq<Seq<char>> {
    strings.map_values(|s: String| s@)
}

/// A list of entries, each URL with its bytes.
pub open spec fn entry_views(entries: Seq<(String, Vec<u8>)>) -> Seq<(Seq<char>, Seq<u8>)> {
    entries.map_values(|e: (String, Vec<u8>)| (e.0@, e.1@))
}

/// The entries with `url` set to `bytes`: an entry for it is replaced in
/// place, else one is added at the end.
pub open spec fn with_entry(entries: Seq<(Seq<char>, Seq<u8>)>, url: Seq<char>, bytes: Seq<u8>) -> Seq<(Seq<char>, Seq<u8>)> {
    if exists|i: int| 0 <= i < entries.len() && #[trigger] entries[i].0 == url {
        entries.update(choose|i: int| 0 <= i < entries.len() && #[trigger] entries[i].0 == url, (url, bytes))
    } else {
        entries.push((url, bytes))
    }
}

/// No URL occurs twice.
pub open spec fn distinct_urls(entries: Seq<(Seq<char>, Seq<u8>)>) -> bool {
    forall|i: int, j: int| 0 <= i < j < entries.len() ==> #[trigger] entries[i].0 != #[trigger] entries[j].0
}

fn sentence(first: &str, url: &WebUrl) -> (r: String)
    ensures
        r@ == first@ + url@,
{
    let mut text = String::from_str(first);
    text.append(url.as_str());
    text
}

impl PageResources {
    pub closed spec fn total(self) -> int {
        self.total as int
    }

    pub closed spec fn css(self) -> Seq<char> {
        self.css@
    }

    pub closed spec fn images(self) -> Seq<(Seq<char>, Seq<u8>)> {
        entry_views(self.images@)
    }

    pub closed spec fn diagnostics(self) -> Seq<Seq<char>> {
        texts(self.diagnostics@)
    }

    pub closed spec fn wf(self) -> bool {
        distinct_urls(entry_views(self.images@))
    }

    /// The resources of a page whose document has `document_bytes` bytes and
    /// whose own style elements hold `inline_css`.
    pub fn new(document_bytes: usize, inline_css: String) -> (r: PageResources)
        ensures
            r.wf(),
            r.total() == document_bytes,
            r.css() == inline_css@,
            r.images() == Seq::<(Seq<char>, Seq<u8>)>::empty(),
            r.diagnostics() == Seq::<Seq<char>>::empty(),
    {
        let r = PageResources { total: document_bytes, css: inline_css, images: Vec::new(), diagnostics: Vec::new() };
        proof {
            assert(r.images() =~= Seq::<(Seq<char>, Seq<u8>)>::empty());
            assert(r.diagnostics() =~= Seq::<Seq<char>>::empty());
        }
        r
    }

    /// Whether to load the stylesheet at `url` for the document at `base`: not
    /// when it is of another origin, which is reported.
    pub fn admit_stylesheet(&mut self, base: &WebUrl, url: &WebUrl) -> (r: bool)
        ensures
            r == same_origin_spec(base@, url@),
            final(self).wf() == old(self).wf(),
            final(self).total() == old(self).total(),
            final(self).css() == old(self).css(),
            final(self).images() == old(self).images(),
            final(self).diagnostics() == if r {
                old(self).diagnostics()
            } else {
                old(self).diagnostics().push("ignored cross-origin stylesheet: "@ + url@)
            },
    {
        if same_origin(base, url) {
            return true;
        }
        self.diagnostics.push(sentence("ignored cross-origin stylesheet: ", url));
        proof {
            assert(self.diagnostics() =~= old(self).diagnostics().push("ignored cross-origin stylesheet: "@ + url@));
        }
        false
    }

    /// Keeps what loading the stylesheet `url` gave: one that redirected to
    /// another origin, would pass the page budget, is not UTF-8 or failed is
    /// reported; any other is added to the style text with a line break and
    /// its bytes counted.
    pub fn accept_stylesheet(&mut self, base: &WebUrl, url: &WebUrl, outcome: Result<ResponseBytes, LoadError>)
        ensures
            final(self).wf() == old(self).wf(),
            old(self).total() <= PAGE_LIMIT ==> final(self).total() <= PAGE_LIMIT,
            final(self).images() == old(self).images(),
            match outcome {
                Err(error) => final(self).total() == old(self).total() && final(self).css() == old(self).css()
                    && final(self).diagnostics() == old(self).diagnostics().push(
                    "could not load stylesheet "@ + url@ + ": "@ + crate::net::load_error_text(error),
                ),
                Ok(response) => if !same_origin_spec(base@, response.final_url@) {
                    final(self).total() == old(self).total() && final(self).css() == old(self).css()
                        && final(self).diagnostics() == old(self).diagnostics().push(
                        "ignored stylesheet redirected across origins: "@ + url@,
                    )
                } else if saturating_sum(old(self).total(), response.body@.len() as int) > PAGE_LIMIT {
                    final(self).total() == old(self).total() && final(self).css() == old(self).css()
                        && final(self).diagnostics() == old(self).diagnostics().push(
                        "ignored stylesheet beyond page resource budget: "@ + url@,
                    )
                } else if !vstd::utf8::valid_utf8(response.body@) {
                    final(self).total() == old(self).total() && final(self).css() == old(self).css()
                        && final(self).diagnostics() == old(self).diagnostics().push(
                        "ignored non-UTF-8 stylesheet: "@ + url@,
                    )
                } else {
                    &&& final(self).total() == old(self).total() + response.body@.len()
                    &&& final(self).css() == old(self).css() + vstd::utf8::decode_utf8(response.body@) + seq!['\n']
                    &&& final(self).diagnostics() == old(self).diagnostics()
                },
            },
    {
        match outcome {
            Err(error) => {
                let mut text = sentence("could not load stylesheet ", url);
                text.append(": ");
                let detail = error.describe();
                text.append(detail.as_str());
                self.diagnostics.push(text);
                proof {
                    assert(self.diagnostics() =~= old(self).diagnostics().push(
                        "could not load stylesheet "@ + url@ + ": "@ + crate::net::load_error_text(error),
                    ));
                }
            },
            Ok(response) => {
                if !same_origin(base, &response.final_url) {
                    self.diagnostics.push(sentence("ignored stylesheet redirected across origins: ", url));
                    proof {
                        assert(self.diagnostics() =~= old(self).diagnostics().push(
                            "ignored stylesheet redirected across origins: "@ + url@,
                        ));
                    }
                    return;
                }
                let length = response.body.len();
                let next_total = if self.total > usize::MAX - length {
                    usize::MAX
                } else {
                    self.total + length
                };
                if next_total > PAGE_LIMIT {
                    self.diagnostics.push(sentence("ignored stylesheet beyond page resource budget: ", url));
                    proof {
                        assert(self.diagnostics() =~= old(self).diagnostics().push(
                            "ignored stylesheet beyond page resource budget: "@ + url@,
                        ));
                    }
                    return;
                }
                match utf8_text(response.body.as_slice()) {
                    Some(content) => {
                        proof {
                            vstd::utf8::encode_utf8_decode_utf8(content@);
                            vstd::utf8::encode_utf8_valid_utf8(content@);
                        }
                        self.total = next_total;
                        self.css.append(content.as_str());
                        push_char(&mut self.css, '\n');
                    },
                    None => {
                        self.diagnostics.push(sentence("ignored non-UTF-8 stylesheet: ", url));
                        proof {
                            assert(self.diagnostics() =~= old(self).diagnostics().push(
                                "ignored non-UTF-8 stylesheet: "@ + url@,
                            ));
                        }
                    },
                }
            },
        }
    }

    /// Reports an image whose source does not resolve.
    pub fn invalid_image_source(&mut self)
        ensures
            final(self).wf() == old(self).wf(),
            final(self).total() == old(self).total(),
            final(self).css() == old(self).css(),
            final(self).images() == old(self).images(),
            final(self).diagnostics() == old(self).diagnostics().push("ignored image with invalid source"@),
    {
        self.diagnostics.push(String::from_str("ignored image with invalid source"));
        proof {
            assert(self.diagnostics() =~= old(self).diagnostics().push("ignored image with invalid source"@));
        }
    }

    /// Whether to load the image at `source` for the document at `base`: not
    /// when it is of another origin, which is reported.
    pub fn admit_image(&mut self, base: &WebUrl, source: &WebUrl) -> (r: bool)
        ensures
            r == same_origin_spec(base@, source@),
            final(self).wf() == old(self).wf(),
            final(self).total() == old(self).total(),
            final(self).css() == old(self).css(),
            final(self).images() == old(self).images(),
            final(self).diagnostics() == if r {
                old(self).diagnostics()
            } else {
                old(self).diagnostics().push("ignored cross-origin image: "@ + source@)
            },
    {
        if same_origin(base, source) {
            return true;
        }
        self.diagnostics.push(sentence("ignored cross-origin image: ", source));
        proof {
            assert(self.diagnostics() =~= old(self).diagnostics().push("ignored cross-origin image: "@ + source@));
        }
        false
    }

    fn keep_image(&mut self, source: String, body: Vec<u8>)
        requires
            old(self).wf(),
        ensures
            final(self).wf(),
            final(self).total() == old(self).total(),
            final(self).css() == old(self).css(),
            final(self).diagnostics() == old(self).diagnostics(),
            final(self).images() == with_entry(old(self).images(), source@, body@),
    {
        let ghost before = self.images();
        let mut i: usize = 0;
        while i < self.images.len()
            invariant
                i <= self.images@.len(),
                before == entry_views(self.images@),
                before == old(self).images(),
                self.total() == old(self).total(),
                self.css() == old(self).css(),
                self.diagnostics() == old(self).diagnostics(),
                distinct_urls(before),
                forall|j: int| 0 <= j < i ==> #[trigger] before[j].0 != source@,
            decreases self.images@.len() - i,
        {
            if crate::text::str_eq(self.images[i].0.as_str(), source.as_str()) {
                proof {
                    assert(before[i as int].0 == source@);
                    let k = choose|k: int| 0 <= k < before.len() && #[trigger] before[k].0 == source@;
                    if k < i {
                        assert(before[k].0 != before[i as int].0);
                    } else if k > i {
                        assert(before[i as int].0 != before[k].0);
                    }
                    assert(k == i);
                }
                self.images.set(i, (source, body));
                proof {
                    assert(self.images() =~= with_entry(before, source@, body@));
                    assert forall|a: int, b: int| 0 <= a < b < self.images().len() implies #[trigger] self.images()[a].0
                        != #[trigger] self.images()[b].0 by {
                        assert(before[a].0 != before[b].0);
                    }
                }
                return;
            }
            i = i + 1;
        }
        self.images.push((source, body));
        proof {
            assert(self.images() =~= with_entry(before, source@, body@));
            assert forall|a: int, b: int| 0 <= a < b < self.images().len() implies #[trigger] self.images()[a].0
                != #[trigger] self.images()[b].0 by {
                if b == before.len() {
                    assert(before[a].0 != source@);
                } else {
                    assert(before[a].0 != before[b].0);
                }
            }
        }
    }

    /// The box of the image at `source`, with alternative text `alt`, from what
    /// loading it gave: one that redirected to another origin, would pass the
    /// page budget, does not decode or failed is reported and keeps the
    /// default box; any other is kept, counted and sized by its pixels.
    pub fn accept_image(
        &mut self,
        base: &WebUrl,
        source: &WebUrl,
        alt: String,
        outcome: Result<ResponseBytes, LoadError>,
    ) -> (r: ImageBox)
        requires
            old(self).wf(),
        ensures
            final(self).wf(),
            final(self).css() == old(self).css(),
            old(self).total() <= PAGE_LIMIT ==> final(self).total() <= PAGE_LIMIT,
            r.source@ == source@,
            r.alt@ == alt@,
            match outcome {
                Err(error) => !r.loaded && r.intrinsic_width == 160 && r.intrinsic_height == 32 && final(self).total()
                    == old(self).total() && final(self).images() == old(self).images() && final(self).diagnostics()
                    == old(self).diagnostics().push("could not load image "@ + source@ + ": "@ + crate::net::load_error_text(error)),
                Ok(response) => if !same_origin_spec(base@, response.final_url@) {
                    !r.loaded && r.intrinsic_width == 160 && r.intrinsic_height == 32 && final(self).total()
                        == old(self).total() && final(self).images() == old(self).images() && final(self).diagnostics()
                        == old(self).diagnostics().push("ignored image redirected across origins: "@ + source@)
                } else if saturating_sum(old(self).total(), response.body@.len() as int) > PAGE_LIMIT {
                    !r.loaded && r.intrinsic_width == 160 && r.intrinsic_height == 32 && final(self).total()
                        == old(self).total() && final(self).images() == old(self).images() && final(self).diagnostics()
                        == old(self).diagnostics().push("ignored image beyond page resource budget: "@ + source@)
                } else {
                    match spec_image_decode(response.body@) {
                        Ok((width, height)) => r.loaded && r.intrinsic_width == width && r.intrinsic_height == height
                            && final(self).total() == old(self).total() + response.body@.len() && final(self).images()
                            == with_entry(old(self).images(), source@, response.body@) && final(self).diagnostics()
                            == old(self).diagnostics(),
                        Err(message) => !r.loaded && r.intrinsic_width == 160 && r.intrinsic_height == 32
                            && final(self).total() == old(self).total() && final(self).images() == old(self).images()
                            && final(self).diagnostics() == old(self).diagnostics().push(
                            "could not decode image "@ + source@ + ": "@ + message,
                        ),
                    }
                },
            },
    {
        match outcome {
            Err(error) => {
                let mut text = sentence("could not load image ", source);
                text.append(": ");
                let detail = error.describe();
                text.append(detail.as_str());
                self.diagnostics.push(text);
                proof {
                    assert(self.diagnostics() =~= old(self).diagnostics().push(
                        "could not load image "@ + source@ + ": "@ + crate::net::load_error_text(error),
                    ));
                }
                image_fallback(source.to_string(), alt)
            },
            Ok(response) => {
                if !same_origin(base, &response.final_url) {
                    self.diagnostics.push(sentence("ignored image redirected across origins: ", source));
                    proof {
                        assert(self.diagnostics() =~= old(self).diagnostics().push(
                            "ignored image redirected across origins: "@ + source@,
                        ));
                    }
                    return image_fallback(source.to_string(), alt);
                }
                let length = response.body.len();
                let next_total = if self.total > usize::MAX - length {
                    usize::MAX
                } else {
                    self.total + length
                };
                if next_total > PAGE_LIMIT {
                    self.diagnostics.push(sentence("ignored image beyond page resource budget: ", source));
                    proof {
                        assert(self.diagnostics() =~= old(self).diagnostics().push(
                            "ignored image beyond page resource budget: "@ + source@,
                        ));
                    }
                    return image_fallback(source.to_string(), alt);
                }
                match decode_image_dimensions(response.body.as_slice()) {
                    Ok((width, height)) => {
                        self.total = next_total;
                        let ghost body = response.body@;
                        self.keep_image(source.to_string(), response.body);
                        ImageBox {
                            source: source.to_string(),
                            alt,
                            intrinsic_width: width,
                            intrinsic_height: height,
                            loaded: true,
                        }
                    },
                    Err(message) => {
                        let mut text = sentence("could not decode image ", source);
                        text.append(": ");
                        text.append(message.as_str());
                        self.diagnostics.push(text);
                        proof {
                            assert(self.diagnostics() =~= old(self).diagnostics().push(
                                "could not decode image "@ + source@ + ": "@ + message@,
                            ));
                        }
                        image_fallback(source.to_string(), alt)
                    },
                }
            },
        }
    }

    /// The style text, the image bodies by URL and the diagnostics.
    pub fn finish(self) -> (r: (String, Vec<(String, Vec<u8>)>, Vec<String>))
        ensures
            r.0@ == self.css(),
            entry_views(r.1@) == self.images(),
            texts(r.2@) == self.diagnostics(),
    {
        (self.css, self.images, self.diagnostics)
    }
}

/// Setting an image's bytes is a write that reads back: afterwards the URL
/// holds exactly the new bytes, every other URL keeps its entry, the list
/// grows only when the URL was new, and no URL occurs twice.
pub proof fn law_with_entry_reads_back(entries: Seq<(Seq<char>, Seq<u8>)>, url: Seq<char>, bytes: Seq<u8>)
    requires
        distinct_urls(entries),
    ensures
        distinct_urls(with_entry(entries, url, bytes)),
        with_entry(entries, url, bytes).contains((url, bytes)),
        forall|i: int| 0 <= i < with_entry(entries, url, bytes).len() && (#[trigger] with_entry(entries, url, bytes)[i]).0
            == url ==> with_entry(entries, url, bytes)[i].1 == bytes,
        forall|i: int| 0 <= i < entries.len() && (#[trigger] entries[i]).0 != url ==> with_entry(entries, url, bytes).contains(
            entries[i],
        ),
        with_entry(entries, url, bytes).len() == if exists|i: int| 0 <= i < entries.len() && #[trigger] entries[i].0 == url {
            entries.len()
        } else {
            entries.len() + 1
        },
{
    let result = with_entry(entries, url, bytes);
    if exists|i: int| 0 <= i < entries.len() && #[trigger] entries[i].0 == url {
        let k = choose|i: int| 0 <= i < entries.len() && #[trigger] entries[i].0 == url;
        assert(result[k] == (url, bytes));
        assert forall|i: int| 0 <= i < entries.len() && (#[trigger] entries[i]).0 != url implies result.contains(entries[i]) by {
            assert(result[i] == entries[i]);
        }
    } else {
        assert(result[entries.len() as int] == (url, bytes));
        assert forall|i: int| 0 <= i < entries.len() && (#[trigger] entries[i]).0 != url implies result.contains(entries[i]) by {
            assert(result[i] == entries[i]);
        }
    }
}

} // verus!
