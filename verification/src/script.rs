//! The text of the script that each proxied page runs.

use vstd::prelude::*;
use vstd::utf8::is_ascii_chars;

verus! {

/// The script that runs first in each proxied page. It reports the page's real address, its
/// title and the targets of its navigation to the embedding window, and it sends the page's
/// absolute HTTPS requests through the proxy.
///
/// The script holds no quotes: inside a quoted attribute value it leaves the value open.
pub const STATE_BRIDGE_SCRIPT: &'static str = r#"(function () {
  if (window.__webproxyStateBridge) return;
  window.__webproxyStateBridge = true;

  var SCHEME = `webproxy:`;
  var PREFIX = `webproxy.`;
  var custom = location.protocol === SCHEME;

  function realUrl(value) {
    var url = new URL(value, location.href);
    var tail = url.pathname + url.search + url.hash;
    if (url.protocol === SCHEME) return `https://` + url.host + tail;
    if (!custom && url.host.indexOf(PREFIX) === 0) {
      return `https://` + url.host.slice(PREFIX.length) + tail;
    }
    return url.href;
  }

  function proxyUrl(value) {
    var url = new URL(value, location.href);
    if (url.protocol !== `https:` || url.host.indexOf(PREFIX) === 0) return url.href;
    var tail = url.pathname + url.search + url.hash;
    return custom
      ? SCHEME + `//` + url.host + tail
      : location.protocol + `//` + PREFIX + url.host + tail;
  }

  function attempt(action, fallback) {
    try { return action(); } catch (error) { return fallback; }
  }

  function report(target) {
    if (window.parent === window) return;
    window.parent.postMessage({
      type: `webproxy:state`,
      url: realUrl(location.href),
      title: document.title,
      target: target === undefined ? null : realUrl(target)
    }, `*`);
  }

  function notify(target) {
    attempt(function () { report(target); });
  }

  var nativeFetch = window.fetch;
  if (nativeFetch) {
    window.fetch = function (input, init) {
      var routed = attempt(function () {
        return input instanceof Request
          ? new Request(proxyUrl(input.url), input)
          : proxyUrl(input);
      }, input);
      return nativeFetch.call(this, routed, init);
    };
  }

  var nativeOpen = XMLHttpRequest.prototype.open;
  XMLHttpRequest.prototype.open = function (method, url) {
    var args = Array.prototype.slice.call(arguments);
    args[1] = attempt(function () { return proxyUrl(url); }, url);
    return nativeOpen.apply(this, args);
  };

  window.open = function (url) {
    if (url) notify(url);
    return null;
  };

  document.addEventListener(`click`, function (event) {
    if (event.defaultPrevented || event.button !== 0) return;
    var link = event.target && event.target.closest ? event.target.closest(`a[href]`) : null;
    if (!link) return;
    var target = attempt(function () { return proxyUrl(link.href); }, null);
    if (target === null || !/^(webproxy|https?):/.test(target)) return;
    notify(link.href);
    if (link.target === `_blank` || target !== link.href) {
      event.preventDefault();
      if (link.target !== `_blank`) location.href = target;
    }
  }, true);

  [`pushState`, `replaceState`].forEach(function (name) {
    var nativeMethod = history[name];
    history[name] = function () {
      var result = nativeMethod.apply(this, arguments);
      notify();
      return result;
    };
  });
  window.addEventListener(`popstate`, function () { notify(); });
  window.addEventListener(`hashchange`, function () { notify(); });
  window.addEventListener(`load`, function () { notify(); });

  document.addEventListener(`DOMContentLoaded`, function () {
    notify();
    new MutationObserver(function () { notify(); }).observe(
      document.head || document.documentElement,
      { childList: true, subtree: true, characterData: true }
    );
  });
})();
"#;

/// The part stands somewhere in the text.
pub open spec fn holds_text(text: Seq<char>, part: Seq<char>) -> bool {
    exists|at: int|
        0 <= at && at + part.len() <= text.len() && #[trigger] text.subrange(at, at + part.len())
            == part
}

/// The script takes over how a page fetches, how it sends requests and how it opens windows, watches
/// its history, and posts its state with the title of the document to the embedding window.
pub open spec fn keeps_the_window_informed(script: Seq<char>) -> bool {
    &&& holds_text(script, "window.fetch ="@)
    &&& holds_text(script, "XMLHttpRequest.prototype.open ="@)
    &&& holds_text(script, "window.open ="@)
    &&& holds_text(script, "window.parent.postMessage("@)
    &&& holds_text(script, "`webproxy:state`"@)
    &&& holds_text(script, "`pushState`"@)
    &&& holds_text(script, "document.title"@)
}

/// The script is ASCII text without an opening angle bracket, a quote or a hyphen, and it holds
/// what it works by. (What a literal holds is known only where the literal itself stands, so it
/// stands here once more.)
#[verifier::rlimit(30)]
pub proof fn lemma_script_text()
    ensures
        is_ascii_chars(STATE_BRIDGE_SCRIPT@),
        forall|i: int|
            0 <= i < STATE_BRIDGE_SCRIPT@.len() ==> {
                let character = #[trigger] STATE_BRIDGE_SCRIPT@[i];
                character != '<' && character != '\'' && character != '"' && character != '-'
            },
        keeps_the_window_informed(STATE_BRIDGE_SCRIPT@),
{
    reveal_strlit(
        r#"(function () {
  if (window.__webproxyStateBridge) return;
  window.__webproxyStateBridge = true;

  var SCHEME = `webproxy:`;
  var PREFIX = `webproxy.`;
  var custom = location.protocol === SCHEME;

  function realUrl(value) {
    var url = new URL(value, location.href);
    var tail = url.pathname + url.search + url.hash;
    if (url.protocol === SCHEME) return `https://` + url.host + tail;
    if (!custom && url.host.indexOf(PREFIX) === 0) {
      return `https://` + url.host.slice(PREFIX.length) + tail;
    }
    return url.href;
  }

  function proxyUrl(value) {
    var url = new URL(value, location.href);
    if (url.protocol !== `https:` || url.host.indexOf(PREFIX) === 0) return url.href;
    var tail = url.pathname + url.search + url.hash;
    return custom
      ? SCHEME + `//` + url.host + tail
      : location.protocol + `//` + PREFIX + url.host + tail;
  }

  function attempt(action, fallback) {
    try { return action(); } catch (error) { return fallback; }
  }

  function report(target) {
    if (window.parent === window) return;
    window.parent.postMessage({
      type: `webproxy:state`,
      url: realUrl(location.href),
      title: document.title,
      target: target === undefined ? null : realUrl(target)
    }, `*`);
  }

  function notify(target) {
    attempt(function () { report(target); });
  }

  var nativeFetch = window.fetch;
  if (nativeFetch) {
    window.fetch = function (input, init) {
      var routed = attempt(function () {
        return input instanceof Request
          ? new Request(proxyUrl(input.url), input)
          : proxyUrl(input);
      }, input);
      return nativeFetch.call(this, routed, init);
    };
  }

  var nativeOpen = XMLHttpRequest.prototype.open;
  XMLHttpRequest.prototype.open = function (method, url) {
    var args = Array.prototype.slice.call(arguments);
    args[1] = attempt(function () { return proxyUrl(url); }, url);
    return nativeOpen.apply(this, args);
  };

  window.open = function (url) {
    if (url) notify(url);
    return null;
  };

  document.addEventListener(`click`, function (event) {
    if (event.defaultPrevented || event.button !== 0) return;
    var link = event.target && event.target.closest ? event.target.closest(`a[href]`) : null;
    if (!link) return;
    var target = attempt(function () { return proxyUrl(link.href); }, null);
    if (target === null || !/^(webproxy|https?):/.test(target)) return;
    notify(link.href);
    if (link.target === `_blank` || target !== link.href) {
      event.preventDefault();
      if (link.target !== `_blank`) location.href = target;
    }
  }, true);

  [`pushState`, `replaceState`].forEach(function (name) {
    var nativeMethod = history[name];
    history[name] = function () {
      var result = nativeMethod.apply(this, arguments);
      notify();
      return result;
    };
  });
  window.addEventListener(`popstate`, function () { notify(); });
  window.addEventListener(`hashchange`, function () { notify(); });
  window.addEventListener(`load`, function () { notify(); });

  document.addEventListener(`DOMContentLoaded`, function () {
    notify();
    new MutationObserver(function () { notify(); }).observe(
      document.head || document.documentElement,
      { childList: true, subtree: true, characterData: true }
    );
  });
})();
"#,
    );
    let script = STATE_BRIDGE_SCRIPT@;
    assert(is_ascii_chars(script));
    assert(forall|i: int| 0 <= i < script.len() ==> #[trigger] script[i] != '<');
    assert(forall|i: int| 0 <= i < script.len() ==> #[trigger] script[i] != '\'');
    assert(forall|i: int| 0 <= i < script.len() ==> #[trigger] script[i] != '"');
    assert(forall|i: int| 0 <= i < script.len() ==> #[trigger] script[i] != '-');
    assert(holds_text(script, "window.fetch ="@)) by {
        reveal_strlit("window.fetch =");
        assert(script.subrange(1403, 1403int + "window.fetch ="@.len()) =~= "window.fetch ="@);
    }
    assert(holds_text(script, "XMLHttpRequest.prototype.open ="@)) by {
        reveal_strlit("XMLHttpRequest.prototype.open =");
        assert(script.subrange(1737, 1737int + "XMLHttpRequest.prototype.open ="@.len()) =~= "XMLHttpRequest.prototype.open ="@);
    }
    assert(holds_text(script, "window.open ="@)) by {
        reveal_strlit("window.open =");
        assert(script.subrange(1964, 1964int + "window.open ="@.len()) =~= "window.open ="@);
    }
    assert(holds_text(script, "window.parent.postMessage("@)) by {
        reveal_strlit("window.parent.postMessage(");
        assert(script.subrange(1065, 1065int + "window.parent.postMessage("@.len()) =~= "window.parent.postMessage("@);
    }
    assert(holds_text(script, "`webproxy:state`"@)) by {
        reveal_strlit("`webproxy:state`");
        assert(script.subrange(1105, 1105int + "`webproxy:state`"@.len()) =~= "`webproxy:state`"@);
    }
    assert(holds_text(script, "`pushState`"@)) by {
        reveal_strlit("`pushState`");
        assert(script.subrange(2623, 2623int + "`pushState`"@.len()) =~= "`pushState`"@);
    }
    assert(holds_text(script, "document.title"@)) by {
        reveal_strlit("document.title");
        assert(script.subrange(1171, 1171int + "document.title"@.len()) =~= "document.title"@);
    }
}

/// The script does what it is injected for.
pub proof fn the_script_keeps_the_window_informed()
    ensures
        keeps_the_window_informed(STATE_BRIDGE_SCRIPT@),
{
    lemma_script_text();
}

} // verus!
