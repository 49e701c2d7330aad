//! The dashboard page around the list of sessions.

use vstd::prelude::*;

verus! {

/// The dashboard page up to its body.
pub const HEAD: &'static str = r##"<!doctype html>
<html lang="en">
<head>
<meta charset="utf-8">
<meta name="viewport" content="width=device-width, initial-scale=1">
<meta name="referrer" content="no-referrer">
<title>omp-deck</title>
<style>
:root { color-scheme: light dark; font-family: system-ui, sans-serif; }
body { margin: 0 auto; max-width: 72rem; padding: 1rem; }
h1 { font-size: 1.2rem; }
.grid { display: grid; gap: 0.75rem; grid-template-columns: repeat(auto-fill, minmax(17rem, 1fr)); }
.card { border: 1px solid #8884; border-radius: 0.6rem; padding: 0.75rem; }
.card header { align-items: center; display: flex; gap: 0.5rem; justify-content: space-between; }
.card h2 { font-size: 1rem; margin: 0; overflow-wrap: anywhere; }
.card p { margin: 0.4rem 0 0; overflow-wrap: anywhere; }
.cwd, .meta { font-size: 0.8rem; opacity: 0.75; }
.card .cwd { display: none; }
.card header:hover + .cwd, .card header:active + .cwd { display: block; }
.badge { border-radius: 1rem; font-size: 0.75rem; padding: 0.1rem 0.5rem; white-space: nowrap; }
.badge.input { background: #c2410c; color: #fff; }
.badge.busy { background: #1d4ed8; color: #fff; }
.badge.idle { background: #8884; }
.links { display: flex; gap: 0.75rem; }
.note, .error, .new { border: 1px solid #8884; border-radius: 0.6rem; margin: 0.75rem 0; padding: 0.75rem; }
.error { border-color: #b91c1c; }
pre { white-space: pre-wrap; }
</style>
</head>
<body>
<h1>omp-deck</h1>
"##;

/// The dashboard page from its body on; it reloads itself every 15 seconds, offers
/// the local checkouts for a new session, and asks before it closes one.
pub const TAIL: &'static str = r##"<details class="new">
<summary>New session</summary>
<form id="new-session">
<p><select id="repo" required></select> <select id="model" hidden></select> <button type="submit">start</button></p>
<p id="new-status"></p>
</form>
</details>
<script>
(() => {
  const byId = (id) => document.getElementById(id);
  const say = (text) => { byId("new-status").textContent = text; };
  const option = (value, label) => {
    const o = document.createElement("option");
    o.value = value;
    o.textContent = label;
    return o;
  };
  const panel = document.querySelector("details.new");
  panel.addEventListener("toggle", async () => {
    if (!panel.open) return;
    try {
      const repos = await (await fetch("/api/repos")).json();
      byId("repo").replaceChildren(...repos.repos.map((r) => option(r.path, r.name)));
      say(repos.hint || "");
      const models = await (await fetch("/api/models")).json();
      byId("model").replaceChildren(option("", "default"), ...models.models.map((m) => option(m, m)));
      byId("model").hidden = models.models.length === 0;
    } catch (e) {
      say(String(e));
    }
  });
  byId("new-session").addEventListener("submit", async (event) => {
    event.preventDefault();
    const res = await fetch("/api/sessions", {
      method: "POST",
      headers: { "content-type": "application/json" },
      body: JSON.stringify({ path: byId("repo").value, model: byId("model").value || null }),
    });
    say(res.ok ? "started" : await res.text());
  });
  document.addEventListener("click", async (event) => {
    const button = event.target.closest("button.stop");
    if (!button || !confirm("Close this session?")) return;
    const res = await fetch("/api/sessions/" + button.dataset.id, { method: "DELETE" });
    if (res.ok) location.reload();
    else alert(await res.text());
  });
  setInterval(() => { if (!panel.open) location.reload(); }, 15000);
})();
</script>
</body>
</html>
"##;

} // verus!
