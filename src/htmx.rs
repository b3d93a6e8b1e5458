use vstd::prelude::*;
use vstd::string::StringExecFns;

verus! {

/// What an `HtmxHeaders` holds, as plain values.
pub struct HtmxView {
    pub boosted: Option<bool>,
    pub current_url: Option<Seq<char>>,
    pub history_restore_request: Option<bool>,
    pub prompt: Option<Seq<char>>,
    pub request: Option<bool>,
    pub target: Option<Seq<char>>,
    pub trigger_name: Option<Seq<char>>,
    pub trigger: Option<Seq<char>>,
    pub location: Option<Seq<char>>,
    pub push_url: Option<Seq<char>>,
    pub redirect: Option<Seq<char>>,
    pub refresh: Option<Seq<char>>,
    pub replace_url: Option<Seq<char>>,
    pub reswap: Option<Seq<char>>,
    pub retarget: Option<Seq<char>>,
    pub reselect: Option<Seq<char>>,
    pub response_trigger: Option<Seq<char>>,
    pub trigger_after_settle: Option<Seq<char>>,
    pub trigger_after_swap: Option<Seq<char>>,
}

/// The view of an optional string.
pub open spec fn opt_view(o: Option<String>) -> Option<Seq<char>> {
    match o {
        Some(s) => Some(s@),
        None => None,
    }
}

/// The request and response headers of the htmx protocol for one request.
/// The request side is read from the incoming headers; the response side is
/// set by handlers and written out with the response.
#[derive(Clone, Debug)]
pub struct HtmxHeaders {
    boosted: Option<bool>,
    current_url: Option<String>,
    history_restore_request: Option<bool>,
    prompt: Option<String>,
    request: Option<bool>,
    target: Option<String>,
    trigger_name: Option<String>,
    trigger: Option<String>,
    location: Option<String>,
    push_url: Option<String>,
    redirect: Option<String>,
    refresh: Option<String>,
    replace_url: Option<String>,
    reswap: Option<String>,
    retarget: Option<String>,
    reselect: Option<String>,
    response_trigger: Option<String>,
    trigger_after_settle: Option<String>,
    trigger_after_swap: Option<String>,
}

impl View for HtmxHeaders {
    type V = HtmxView;

    closed spec fn view(&self) -> HtmxView {
        HtmxView {
            boosted: self.boosted,
            current_url: opt_view(self.current_url),
            history_restore_request: self.history_restore_request,
            prompt: opt_view(self.prompt),
            request: self.request,
            target: opt_view(self.target),
            trigger_name: opt_view(self.trigger_name),
            trigger: opt_view(self.trigger),
            location: opt_view(self.location),
            push_url: opt_view(self.push_url),
            redirect: opt_view(self.redirect),
            refresh: opt_view(self.refresh),
            replace_url: opt_view(self.replace_url),
            reswap: opt_view(self.reswap),
            retarget: opt_view(self.retarget),
            reselect: opt_view(self.reselect),
            response_trigger: opt_view(self.response_trigger),
            trigger_after_settle: opt_view(self.trigger_after_settle),
            trigger_after_swap: opt_view(self.trigger_after_swap),
        }
    }
}

/// Whether position `i` holds the first header named `name`.
pub open spec fn is_first(h: Seq<(String, Option<String>)>, name: Seq<char>, i: int) -> bool {
    &&& 0 <= i < h.len()
    &&& h[i].0@ == name
    &&& forall|j: int| 0 <= j < i ==> (#[trigger] h[j]).0@ != name
}

/// The value of the first header named `name`: `None` when there is none,
/// `Some(None)` when its value is not visible ASCII text.
pub open spec fn first_value(h: Seq<(String, Option<String>)>, name: Seq<char>) -> Option<
    Option<String>,
> {
    if exists|i: int| is_first(h, name, i) {
        Some(h[choose|i: int| is_first(h, name, i)].1)
    } else {
        None
    }
}

/// A text header: `Some(None)` when absent, `None` when malformed.
pub open spec fn text_field(h: Seq<(String, Option<String>)>, name: Seq<char>) -> Option<
    Option<Seq<char>>,
> {
    match first_value(h, name) {
        None => Some(None),
        Some(None) => None,
        Some(Some(s)) => Some(Some(s@)),
    }
}

/// A boolean header, written `true` or `false`: `Some(None)` when absent,
/// `None` when malformed.
pub open spec fn flag_field(h: Seq<(String, Option<String>)>, name: Seq<char>) -> Option<
    Option<bool>,
> {
    match first_value(h, name) {
        None => Some(None),
        Some(None) => None,
        Some(Some(s)) => if s@ == "true"@ {
            Some(Some(true))
        } else if s@ == "false"@ {
            Some(Some(false))
        } else {
            None
        },
    }
}

/// The htmx headers that the request headers `h` carry, or `None` when one of
/// them is malformed.
pub open spec fn parse_htmx(h: Seq<(String, Option<String>)>) -> Option<HtmxView> {
    let boosted = flag_field(h, "hx-boosted"@);
    let current_url = text_field(h, "hx-current-url"@);
    let history = flag_field(h, "hx-history-restore-request"@);
    let prompt = text_field(h, "hx-prompt"@);
    let request = flag_field(h, "hx-request"@);
    let target = text_field(h, "hx-target"@);
    let trigger_name = text_field(h, "hx-trigger-name"@);
    let trigger = text_field(h, "hx-trigger"@);
    let location = text_field(h, "hx-location"@);
    let push_url = text_field(h, "hx-push-url"@);
    let redirect = text_field(h, "hx-redirect"@);
    let refresh = text_field(h, "hx-refresh"@);
    let replace_url = text_field(h, "hx-replace-url"@);
    let reswap = text_field(h, "hx-reswap"@);
    let retarget = text_field(h, "hx-retarget"@);
    let reselect = text_field(h, "hx-reselect"@);
    let after_settle = text_field(h, "hx-trigger-after-settle"@);
    let after_swap = text_field(h, "hx-trigger-after-swap"@);
    if boosted is Some && current_url is Some && history is Some && prompt is Some
        && request is Some && target is Some && trigger_name is Some && trigger is Some
        && location is Some && push_url is Some && redirect is Some && refresh is Some
        && replace_url is Some && reswap is Some && retarget is Some && reselect is Some
        && after_settle is Some && after_swap is Some {
        Some(
            HtmxView {
                boosted: boosted.unwrap(),
                current_url: current_url.unwrap(),
                history_restore_request: history.unwrap(),
                prompt: prompt.unwrap(),
                request: request.unwrap(),
                target: target.unwrap(),
                trigger_name: trigger_name.unwrap(),
                trigger: trigger.unwrap(),
                location: location.unwrap(),
                push_url: push_url.unwrap(),
                redirect: redirect.unwrap(),
                refresh: refresh.unwrap(),
                replace_url: replace_url.unwrap(),
                reswap: reswap.unwrap(),
                retarget: retarget.unwrap(),
                reselect: reselect.unwrap(),
                response_trigger: trigger.unwrap(),
                trigger_after_settle: after_settle.unwrap(),
                trigger_after_swap: after_swap.unwrap(),
            },
        )
    } else {
        None
    }
}

/// One response header for a field that is set, none for one that is not.
pub open spec fn emit(name: Seq<char>, value: Option<Seq<char>>) -> Seq<(Seq<char>, Seq<char>)> {
    match value {
        Some(v) => seq![(name, v)],
        None => Seq::empty(),
    }
}

/// The response headers that `v` asks for, in the order they are written.
pub open spec fn response_of(v: HtmxView) -> Seq<(Seq<char>, Seq<char>)> {
    emit("hx-location"@, v.location) + emit("hx-push-url"@, v.push_url) + emit(
        "hx-redirect"@,
        v.redirect,
    ) + emit("hx-refresh"@, v.refresh) + emit("hx-replace-url"@, v.replace_url) + emit(
        "hx-reswap"@,
        v.reswap,
    ) + emit("hx-reselect"@, v.reselect) + emit("hx-retarget"@, v.retarget) + emit(
        "hx-trigger"@,
        v.response_trigger,
    ) + emit("hx-trigger-after-settle"@, v.trigger_after_settle) + emit(
        "hx-trigger-after-swap"@,
        v.trigger_after_swap,
    )
}

/// The views of a list of header pairs.
pub open spec fn pairs_view(s: Seq<(String, String)>) -> Seq<(Seq<char>, Seq<char>)> {
    s.map_values(|p: (String, String)| (p.0@, p.1@))
}

/// The value of the first header named `name`.
fn lookup(headers: &Vec<(String, Option<String>)>, name: &str) -> (r: Option<Option<String>>)
    ensures
        r == first_value(headers@, name@),
{
    let key = String::from_str(name);
    let mut i: usize = 0;
    while i < headers.len()
        invariant
            i <= headers.len(),
            key@ == name@,
            forall|j: int| 0 <= j < i ==> (#[trigger] headers@[j]).0@ != name@,
        decreases headers.len() - i,
    {
        if headers[i].0 == key {
            proof {
                assert(is_first(headers@, name@, i as int));
                let k = choose|k: int| is_first(headers@, name@, k);
                if k < i {
                    assert(headers@[k].0@ != name@);
                }
                if i < k {
                    assert(headers@[i as int].0@ != name@);
                }
            }
            return Some(headers[i].1.clone());
        }
        i = i + 1;
    }
    None
}

/// A text header; `Err` when it is malformed.
fn text_header(headers: &Vec<(String, Option<String>)>, name: &str) -> (r: Result<
    Option<String>,
    (),
>)
    ensures
        r is Ok <==> text_field(headers@, name@) is Some,
        r matches Ok(v) ==> Some(opt_view(v)) == text_field(headers@, name@),
{
    match lookup(headers, name) {
        None => Ok(None),
        Some(None) => Err(()),
        Some(Some(s)) => Ok(Some(s)),
    }
}

/// A boolean header; `Err` when it is malformed.
fn flag_header(headers: &Vec<(String, Option<String>)>, name: &str) -> (r: Result<
    Option<bool>,
    (),
>)
    ensures
        r is Ok <==> flag_field(headers@, name@) is Some,
        r matches Ok(v) ==> Some(v) == flag_field(headers@, name@),
{
    match lookup(headers, name) {
        None => Ok(None),
        Some(None) => Err(()),
        Some(Some(s)) => {
            let yes = String::from_str("true");
            let no = String::from_str("false");
            if s == yes {
                Ok(Some(true))
            } else if s == no {
                Ok(Some(false))
            } else {
                Err(())
            }
        },
    }
}

impl HtmxHeaders {
    /// Reads the htmx headers of a request from its headers, given as
    /// (lower-case name, value) pairs in order, a value being `None` when it
    /// is not visible ASCII text. Of several headers with one name the first
    /// counts. The response side starts out as the request carries it.
    /// `None` when a header is malformed: a value that is not text, or a
    /// boolean header other than `true` or `false`.
    pub fn from_headers_map(headers: &Vec<(String, Option<String>)>) -> (r: Option<HtmxHeaders>)
        ensures
            r is Some <==> parse_htmx(headers@) is Some,
            r matches Some(hx) ==> Some(hx@) == parse_htmx(headers@),
    {
        let boosted = flag_header(headers, "hx-boosted");
        let current_url = text_header(headers, "hx-current-url");
        let history = flag_header(headers, "hx-history-restore-request");
        let prompt = text_header(headers, "hx-prompt");
        let request = flag_header(headers, "hx-request");
        let target = text_header(headers, "hx-target");
        let trigger_name = text_header(headers, "hx-trigger-name");
        let trigger = text_header(headers, "hx-trigger");
        let location = text_header(headers, "hx-location");
        let push_url = text_header(headers, "hx-push-url");
        let redirect = text_header(headers, "hx-redirect");
        let refresh = text_header(headers, "hx-refresh");
        let replace_url = text_header(headers, "hx-replace-url");
        let reswap = text_header(headers, "hx-reswap");
        let retarget = text_header(headers, "hx-retarget");
        let reselect = text_header(headers, "hx-reselect");
        let after_settle = text_header(headers, "hx-trigger-after-settle");
        let after_swap = text_header(headers, "hx-trigger-after-swap");
        match (
            (boosted, current_url, history, prompt, request, target),
            (trigger_name, trigger, location, push_url, redirect, refresh),
            (replace_url, reswap, retarget, reselect, after_settle, after_swap),
        ) {
            (
                (Ok(boosted), Ok(current_url), Ok(history), Ok(prompt), Ok(request), Ok(target)),
                (
                    Ok(trigger_name),
                    Ok(trigger),
                    Ok(location),
                    Ok(push_url),
                    Ok(redirect),
                    Ok(refresh),
                ),
                (
                    Ok(replace_url),
                    Ok(reswap),
                    Ok(retarget),
                    Ok(reselect),
                    Ok(after_settle),
                    Ok(after_swap),
                ),
            ) => {
                let response_trigger = trigger.clone();
                Some(
                    HtmxHeaders {
                        boosted,
                        current_url,
                        history_restore_request: history,
                        prompt,
                        request,
                        target,
                        trigger_name,
                        trigger,
                        location,
                        push_url,
                        redirect,
                        refresh,
                        replace_url,
                        reswap,
                        retarget,
                        reselect,
                        response_trigger,
                        trigger_after_settle: after_settle,
                        trigger_after_swap: after_swap,
                    },
                )
            },
            _ => None,
        }
    }

    /// The response headers to write, as (name, value) pairs: one for each
    /// response field that is set.
    pub fn write_headers(&self) -> (r: Vec<(String, String)>)
        ensures
            pairs_view(r@) == response_of(self@),
    {
        let mut out: Vec<(String, String)> = Vec::new();
        push_header(&mut out, "hx-location", &self.location);
        push_header(&mut out, "hx-push-url", &self.push_url);
        push_header(&mut out, "hx-redirect", &self.redirect);
        push_header(&mut out, "hx-refresh", &self.refresh);
        push_header(&mut out, "hx-replace-url", &self.replace_url);
        push_header(&mut out, "hx-reswap", &self.reswap);
        push_header(&mut out, "hx-reselect", &self.reselect);
        push_header(&mut out, "hx-retarget", &self.retarget);
        push_header(&mut out, "hx-trigger", &self.response_trigger);
        push_header(&mut out, "hx-trigger-after-settle", &self.trigger_after_settle);
        push_header(&mut out, "hx-trigger-after-swap", &self.trigger_after_swap);
        proof {
            assert(pairs_view(out@) =~= response_of(self@));
        }
        out
    }

    /// Whether the request came from an element with `hx-boost`.
    pub fn boosted(&self) -> (r: bool)
        ensures
            r == (self@.boosted == Some(true)),
    {
        self.boosted.unwrap_or(false)
    }

    /// The URL of the browser when the request was made.
    pub fn current_url(&self) -> (r: &Option<String>)
        ensures
            opt_view(*r) == self@.current_url,
    {
        &self.current_url
    }

    /// Whether the request restores history after a cache miss.
    pub fn history_restore_request(&self) -> (r: bool)
        ensures
            r == (self@.history_restore_request == Some(true)),
    {
        self.history_restore_request.unwrap_or(false)
    }

    /// The user's answer to an `hx-prompt`.
    pub fn prompt(&self) -> (r: &Option<String>)
        ensures
            opt_view(*r) == self@.prompt,
    {
        &self.prompt
    }

    /// Whether the request was made by htmx.
    pub fn request(&self) -> (r: bool)
        ensures
            r == (self@.request == Some(true)),
    {
        self.request.unwrap_or(false)
    }

    /// The id of the target element.
    pub fn target(&self) -> (r: &Option<String>)
        ensures
            opt_view(*r) == self@.target,
    {
        &self.target
    }

    /// The name of the triggering element.
    pub fn trigger_name(&self) -> (r: &Option<String>)
        ensures
            opt_view(*r) == self@.trigger_name,
    {
        &self.trigger_name
    }

    /// The id of the triggering element.
    pub fn trigger(&self) -> (r: &Option<String>)
        ensures
            opt_view(*r) == self@.trigger,
    {
        &self.trigger
    }

    /// Asks for a client-side redirect without a full reload.
    pub fn set_location(&mut self, location: &str)
        ensures
            final(self)@ == (HtmxView { location: Some(location@), ..old(self)@ }),
    {
        self.location = Some(location.to_string());
    }

    /// Asks to push a URL onto the history stack.
    pub fn set_push_url(&mut self, push_url: &str)
        ensures
            final(self)@ == (HtmxView { push_url: Some(push_url@), ..old(self)@ }),
    {
        self.push_url = Some(push_url.to_string());
    }

    /// Asks for a client-side redirect to a new location.
    pub fn set_redirect(&mut self, redirect: &str)
        ensures
            final(self)@ == (HtmxView { redirect: Some(redirect@), ..old(self)@ }),
    {
        self.redirect = Some(redirect.to_string());
    }

    /// Asks for a full refresh of the page.
    pub fn set_refresh(&mut self, refresh: &str)
        ensures
            final(self)@ == (HtmxView { refresh: Some(refresh@), ..old(self)@ }),
    {
        self.refresh = Some(refresh.to_string());
    }

    /// Asks to replace the current URL in the location bar.
    pub fn set_replace_url(&mut self, replace_url: &str)
        ensures
            final(self)@ == (HtmxView { replace_url: Some(replace_url@), ..old(self)@ }),
    {
        self.replace_url = Some(replace_url.to_string());
    }

    /// Says how the response is to be swapped in.
    pub fn set_reswap(&mut self, reswap: &str)
        ensures
            final(self)@ == (HtmxView { reswap: Some(reswap@), ..old(self)@ }),
    {
        self.reswap = Some(reswap.to_string());
    }

    /// Picks the part of the response to swap in.
    pub fn set_reselect(&mut self, reselect: &str)
        ensures
            final(self)@ == (HtmxView { reselect: Some(reselect@), ..old(self)@ }),
    {
        self.reselect = Some(reselect.to_string());
    }

    /// Retargets the swap to another element.
    pub fn set_retarget(&mut self, retarget: &str)
        ensures
            final(self)@ == (HtmxView { retarget: Some(retarget@), ..old(self)@ }),
    {
        self.retarget = Some(retarget.to_string());
    }

    /// Triggers client-side events.
    pub fn set_trigger(&mut self, trigger: &str)
        ensures
            final(self)@ == (HtmxView { response_trigger: Some(trigger@), ..old(self)@ }),
    {
        self.response_trigger = Some(trigger.to_string());
    }

    /// Triggers client-side events after the settle step.
    pub fn set_trigger_after_settle(&mut self, trigger_after_settle: &str)
        ensures
            final(self)@ == (HtmxView {
                trigger_after_settle: Some(trigger_after_settle@),
                ..old(self)@
            }),
    {
        self.trigger_after_settle = Some(trigger_after_settle.to_string());
    }

    /// Triggers client-side events after the swap step.
    pub fn set_trigger_after_swap(&mut self, trigger_after_swap: &str)
        ensures
            final(self)@ == (HtmxView { trigger_after_swap: Some(trigger_after_swap@), ..old(self)@ }),
    {
        self.trigger_after_swap = Some(trigger_after_swap.to_string());
    }
}

impl Default for HtmxHeaders {
    /// No header at all.
    fn default() -> (r: HtmxHeaders)
        ensures
            r@ == empty_htmx(),
    {
        HtmxHeaders {
            boosted: None,
            current_url: None,
            history_restore_request: None,
            prompt: None,
            request: None,
            target: None,
            trigger_name: None,
            trigger: None,
            location: None,
            push_url: None,
            redirect: None,
            refresh: None,
            replace_url: None,
            reswap: None,
            retarget: None,
            reselect: None,
            response_trigger: None,
            trigger_after_settle: None,
            trigger_after_swap: None,
        }
    }
}

/// The view of a request without htmx headers.
pub open spec fn empty_htmx() -> HtmxView {
    HtmxView {
        boosted: None,
        current_url: None,
        history_restore_request: None,
        prompt: None,
        request: None,
        target: None,
        trigger_name: None,
        trigger: None,
        location: None,
        push_url: None,
        redirect: None,
        refresh: None,
        replace_url: None,
        reswap: None,
        retarget: None,
        reselect: None,
        response_trigger: None,
        trigger_after_settle: None,
        trigger_after_swap: None,
    }
}

/// Appends `(name, value)` to `out` when `value` is set.
fn push_header(out: &mut Vec<(String, String)>, name: &str, value: &Option<String>)
    ensures
        pairs_view(final(out)@) == pairs_view(old(out)@) + emit(name@, opt_view(*value)),
{
    match value {
        Some(v) => {
            out.push((String::from_str(name), v.clone()));
            proof {
                assert(pairs_view(out@) =~= pairs_view(old(out)@) + emit(name@, opt_view(*value)));
            }
        },
        None => {
            proof {
                assert(pairs_view(out@) =~= pairs_view(old(out)@) + emit(name@, opt_view(*value)));
            }
        },
    }
}

} // verus!
