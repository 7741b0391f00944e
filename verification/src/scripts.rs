//! The scripts that the shell puts into its pages. They are ES5: they have to run on the very
//! engines that they are for.
use vstd::prelude::*;

verus! {

/// The `Iterator` global and its helpers, installed on the prototype that all iterators of the engine
/// inherit from.
pub const ITERATOR_SHIM: &'static str = r#"
(function () {
  // globalThis is named explicitly: a "var Iterator" in this scope would shadow the global, and
  // the guard would then answer about the local binding instead of the engine.
  if (typeof globalThis.Iterator !== "undefined") return;
  var iteratorPrototype = Object.getPrototypeOf(Object.getPrototypeOf([][Symbol.iterator]()));
  if (typeof iteratorPrototype[Symbol.iterator] !== "function") {
    Object.defineProperty(iteratorPrototype, Symbol.iterator, {
      value: function () { return this; },
      configurable: true
    });
  }
  var IteratorShim = function () {
    throw new TypeError("Iterator is abstract: use Iterator.from");
  };
  IteratorShim.prototype = iteratorPrototype;
  try {
    Object.defineProperty(iteratorPrototype, "constructor", { value: IteratorShim, writable: true, configurable: true });
  } catch (error) {}
  IteratorShim.from = function (value) {
    if (value === null || value === undefined) throw new TypeError("Iterator.from requires an object");
    if (typeof value.next === "function") return value;
    var method = value[Symbol.iterator];
    if (typeof method !== "function") throw new TypeError("value is not iterable");
    return method.call(value);
  };
  globalThis.Iterator = IteratorShim;
  var defineHelper = function (name, helper) {
    if (typeof iteratorPrototype[name] === "function") return;
    Object.defineProperty(iteratorPrototype, name, { value: helper, writable: true, configurable: true });
  };
  // A helper result is an iterator like any other: it inherits from %IteratorPrototype%, which is
  // what makes chaining (and "instanceof Iterator") work, and that prototype is iterable.
  var wrap = function (next) {
    var result = Object.create(iteratorPrototype);
    result.next = next;
    return result;
  };
  defineHelper("map", function (mapper, thisArg) {
    var source = this, index = 0;
    return wrap(function () {
      var step = source.next();
      if (step.done) return step;
      return { value: mapper.call(thisArg, step.value, index++), done: false };
    });
  });
  defineHelper("filter", function (predicate, thisArg) {
    var source = this, index = 0;
    return wrap(function () {
      for (;;) {
        var step = source.next();
        if (step.done) return step;
        if (predicate.call(thisArg, step.value, index++)) return { value: step.value, done: false };
      }
    });
  });
  defineHelper("take", function (limit) {
    var source = this, left = Number(limit);
    return wrap(function () {
      if (!(left > 0)) return { value: undefined, done: true };
      left -= 1;
      var step = source.next();
      if (step.done) left = 0;
      return step;
    });
  });
  defineHelper("drop", function (limit) {
    var source = this, left = Number(limit), started = false;
    return wrap(function () {
      if (!started) {
        started = true;
        while (left > 0) {
          left -= 1;
          if (source.next().done) return { value: undefined, done: true };
        }
      }
      return source.next();
    });
  });
  defineHelper("flatMap", function (mapper, thisArg) {
    var source = this, inner = null, index = 0;
    return wrap(function () {
      for (;;) {
        if (inner !== null) {
          var innerStep = inner.next();
          if (!innerStep.done) return { value: innerStep.value, done: false };
          inner = null;
        }
        var step = source.next();
        if (step.done) return step;
        inner = mapper.call(thisArg, step.value, index++)[Symbol.iterator]();
      }
    });
  });
  defineHelper("reduce", function (reducer) {
    var source = this, index = 0, accumulator, started = arguments.length > 1;
    if (started) accumulator = arguments[1];
    for (;;) {
      var step = source.next();
      if (step.done) break;
      if (!started) {
        accumulator = step.value;
        started = true;
        index = 1;
        continue;
      }
      accumulator = reducer(accumulator, step.value, index);
      index += 1;
    }
    if (!started) throw new TypeError("reduce of an empty iterator with no initial value");
    return accumulator;
  });
  defineHelper("toArray", function () {
    var source = this, values = [];
    for (;;) {
      var step = source.next();
      if (step.done) return values;
      values.push(step.value);
    }
  });
  defineHelper("forEach", function (callback, thisArg) {
    var source = this, index = 0;
    for (;;) {
      var step = source.next();
      if (step.done) return undefined;
      callback.call(thisArg, step.value, index++);
    }
  });
  defineHelper("some", function (predicate, thisArg) {
    var source = this, index = 0;
    for (;;) {
      var step = source.next();
      if (step.done) return false;
      if (predicate.call(thisArg, step.value, index++)) return true;
    }
  });
  defineHelper("every", function (predicate, thisArg) {
    var source = this, index = 0;
    for (;;) {
      var step = source.next();
      if (step.done) return true;
      if (!predicate.call(thisArg, step.value, index++)) return false;
    }
  });
  defineHelper("find", function (predicate, thisArg) {
    var source = this, index = 0;
    for (;;) {
      var step = source.next();
      if (step.done) return undefined;
      if (predicate.call(thisArg, step.value, index++)) return step.value;
    }
  });
  // Not a standard helper, but the document-preview bundle installs exactly this one, so a shim
  // that got there first must behave the same: spread the iterator, join the array.
  defineHelper("join", function (separator) {
    return this.toArray().join(separator);
  });
})();
"#;

/// `Promise.try`: calls the function now, and settles with what it returned or threw.
pub const PROMISE_TRY_SHIM: &'static str = r#"
(function () {
  if (typeof Promise.try === "function") return;
  Promise.try = function (callback) {
    var args = Array.prototype.slice.call(arguments, 1);
    return new Promise(function (resolve) { resolve(callback.apply(undefined, args)); });
  };
})();
"#;

/// `Promise.withResolvers`.
pub const PROMISE_WITH_RESOLVERS_SHIM: &'static str = r#"
(function () {
  if (typeof Promise.withResolvers === "function") return;
  Promise.withResolvers = function () {
    var resolve, reject;
    var promise = new Promise(function (res, rej) { resolve = res; reject = rej; });
    return { promise: promise, resolve: resolve, reject: reject };
  };
})();
"#;

/// `Symbol.dispose` and `Symbol.asyncDispose`.
pub const SYMBOL_DISPOSE_SHIM: &'static str = r#"
(function () {
  if (typeof Symbol.dispose === "undefined") Symbol.dispose = Symbol("Symbol.dispose");
  if (typeof Symbol.asyncDispose === "undefined") Symbol.asyncDispose = Symbol("Symbol.asyncDispose");
})();
"#;

/// `Math.sumPrecise`, by compensated summation; a sum that is not finite stays as it is.
pub const MATH_SUM_PRECISE_SHIM: &'static str = r#"
(function () {
  if (typeof Math.sumPrecise === "function") return;
  Math.sumPrecise = function (values) {
    var iterator = values[Symbol.iterator](), sum = 0, correction = 0, step;
    for (;;) {
      step = iterator.next();
      if (step.done) break;
      var value = Number(step.value);
      var next = sum + value;
      correction += Math.abs(sum) >= Math.abs(value) ? (sum - next) + value : (value - next) + sum;
      sum = next;
    }
    return isFinite(sum) ? sum + correction : sum;
  };
})();
"#;

/// `Uint8Array.fromBase64`: white space is skipped, and the url-safe alphabet is accepted too.
pub const UINT8_FROM_BASE64_SHIM: &'static str = r#"
(function () {
  if (typeof Uint8Array.fromBase64 === "function") return;
  Uint8Array.fromBase64 = function (value) {
    var normalized = String(value).replace(/\s/g, "").replace(/-/g, "+").replace(/_/g, "/");
    var binary = atob(normalized);
    var bytes = new Uint8Array(binary.length);
    for (var index = 0; index < binary.length; index += 1) {
      bytes[index] = binary.charCodeAt(index) & 255;
    }
    return bytes;
  };
})();
"#;

/// `Object.hasOwn`.
pub const OBJECT_HAS_OWN_SHIM: &'static str = r#"
(function () {
  if (typeof Object.hasOwn === "function") return;
  Object.hasOwn = function (object, property) {
    if (object === null || object === undefined) throw new TypeError("Object.hasOwn requires an object");
    return Object.prototype.hasOwnProperty.call(Object(object), property);
  };
})();
"#;

/// `Array.prototype.findLast` and `findLastIndex`.
pub const FIND_LAST_SHIM: &'static str = r#"
(function () {
  if (typeof [].findLast !== "function") {
    Object.defineProperty(Array.prototype, "findLast", {
      value: function (predicate, thisArg) {
        if (this === null || this === undefined) throw new TypeError("findLast requires an array");
        for (var index = this.length - 1; index >= 0; index -= 1) {
          var value = this[index];
          if (predicate.call(thisArg, value, index, this)) return value;
        }
        return undefined;
      },
      writable: true,
      configurable: true
    });
  }
  if (typeof [].findLastIndex !== "function") {
    Object.defineProperty(Array.prototype, "findLastIndex", {
      value: function (predicate, thisArg) {
        if (this === null || this === undefined) throw new TypeError("findLastIndex requires an array");
        for (var index = this.length - 1; index >= 0; index -= 1) {
          if (predicate.call(thisArg, this[index], index, this)) return index;
        }
        return -1;
      },
      writable: true,
      configurable: true
    });
  }
})();
"#;

/// The script that asks a page what its engine can run, up to the checks.
pub const PROBE_HEAD: &'static str = r#"
(function () {
  var missing = [];
  var degraded = [];
"#;

/// The same script between the checks and the name of the event that it reports with.
pub const PROBE_MIDDLE: &'static str = r#"
  function report(attempt) {
    if (window.__dshSyntaxMissing === undefined) {
      if (attempt < 40) setTimeout(function () { report(attempt + 1); }, 25);
      return;
    }
    var payload = {
      missing: missing,
      degraded: degraded,
      syntax: window.__dshSyntaxMissing,
      agent: navigator.userAgent
    };
    try {
      if (window.__TAURI_INTERNALS__ && window.__TAURI_INTERNALS__.invoke) {
        window.__TAURI_INTERNALS__.invoke("plugin:event|emit", { event: ""#;

/// The end of that script.
pub const PROBE_TAIL: &'static str = r#"", payload: payload });
        return;
      }
    } catch (error) {
      // An old WebView can throw here; fall through to the retry, then give up quietly.
    }
    if (attempt < 40) setTimeout(function () { report(attempt + 1); }, 25);
  }
  report(0);
})();
"#;

/// Counts the frames that a page draws, and gives the total. It schedules one frame at a time.
pub const FRAME_PROBE: &'static str = r#"
(function () {
  var w = window;
  if (typeof w.__dshFrames !== "number") {
    w.__dshFrames = 0;
    w.__dshFramePending = false;
  }
  if (!w.__dshFramePending && typeof w.requestAnimationFrame === "function") {
    w.__dshFramePending = true;
    w.requestAnimationFrame(function () {
      w.__dshFrames += 1;
      w.__dshFramePending = false;
    });
  }
  return w.__dshFrames;
})()
"#;

/// Tells whether someone is working in a page: whether a field is edited, and how long ago the last
/// input was.
pub const ACTIVITY_PROBE: &'static str = r#"
(function () {
  var w = window;
  if (typeof w.__dshLastInput !== "number") {
    w.__dshLastInput = 0;
    var note = function () { w.__dshLastInput = Date.now(); };
    var events = ["keydown", "keypress", "input", "pointerdown", "paste", "compositionstart"];
    for (var i = 0; i < events.length; i++) {
      document.addEventListener(events[i], note, true);
    }
  }
  var active = document.activeElement;
  var editing = false;
  if (active) {
    var tag = (active.tagName || "").toLowerCase();
    editing = tag === "input" || tag === "textarea" || active.isContentEditable === true;
  }
  var idle = w.__dshLastInput === 0 ? 1e9 : Date.now() - w.__dshLastInput;
  return JSON.stringify({ editing: editing, idle: idle });
})()
"#;

} // verus!
