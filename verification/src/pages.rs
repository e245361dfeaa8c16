//! The pages of the web server, as templates.

use vstd::prelude::*;

verus! {

/// The icon of the graph page: three commits and one on a branch.
pub const FAVICON: &'static str =
    "data:image/svg+xml,%3Csvg xmlns='http://www.w3.org/2000/svg' viewBox='0 0 16 16'%3E%3Cline x1='5' y1='1' x2='5' y2='15' stroke='%234ade80' stroke-width='1.5'/%3E%3Cline x1='5' y1='5' x2='11' y2='11' stroke='%2360a5fa' stroke-width='1.5'/%3E%3Ccircle cx='5' cy='2' r='2' fill='%234ade80'/%3E%3Ccircle cx='5' cy='6' r='2' fill='%234ade80'/%3E%3Ccircle cx='5' cy='14' r='2' fill='%234ade80'/%3E%3Ccircle cx='11' cy='11' r='2' fill='%2360a5fa'/%3E%3C/svg%3E";

/// The page that shows the graph: `repo_name`, `favicon` and `svg`.
pub const VIEW_PAGE: &'static str = r#"<!DOCTYPE html>
<html>
<head>
<meta charset="utf-8">
<title>⎇ {repo_name}</title>
<link rel="icon" type="image/svg+xml" href="{favicon}">
<style>
  body {{ margin: 0; background: #1a1f2e; overflow: auto; }}
  svg {{ display: block; }}
</style>
<script>
(function() {{
  var v = null;
  function poll() {{
    fetch('/version').then(function(r) {{ return r.text(); }}).then(function(nv) {{
      if (v === null) {{ v = nv; }}
      else if (nv !== v) {{ location.reload(); }}
    }}).catch(function() {{}});
  }}
  setInterval(poll, 1500);
  poll();
  setInterval(function() {{ fetch('/heartbeat').catch(function(){{}}); }}, 2000);
}})();
</script>
</head>
<body>{svg}
<div id="ggv-flt-bar" style="position:fixed;top:10px;right:10px;z-index:1000;display:flex;align-items:center;gap:6px;background:#1a1f2e;border:1px solid #2d3748;border-radius:6px;padding:5px 10px;font-family:'Segoe UI',sans-serif;font-size:12px;">
  <span style="color:#718096;white-space:nowrap;">Filter:</span>
  <input id="ggv-flt-inp" type="text" placeholder="*.cpp *.h" style="width:160px;padding:3px 6px;border:1px solid #2d3748;border-radius:4px;background:#0f1117;color:#e2e8f0;font-family:monospace;font-size:11px;">
  <button onclick="ggvSave()" style="padding:2px 8px;border-radius:4px;cursor:pointer;border:1px solid #2d3748;background:#1a1f2e;color:#e2e8f0;font-size:11px;">Set</button>
  <button onclick="ggvClear()" style="padding:2px 8px;border-radius:4px;cursor:pointer;border:1px solid #2d3748;background:#1a1f2e;color:#718096;font-size:11px;">✕</button>
  <span id="ggv-flt-ind" style="color:#f6ad55;font-size:10px;display:none;">●</span>
  <button onclick="ggvHelp()" title="Help  ?" style="padding:2px 8px;border-radius:4px;cursor:pointer;border:1px solid #2d3748;background:#1a1f2e;color:#a0aec0;font-size:12px;font-family:monospace;line-height:1.4;" onmouseover="this.style.borderColor='#63b3ed';this.style.color='#63b3ed'" onmouseout="this.style.borderColor='#2d3748';this.style.color='#a0aec0'">?</button>
</div>
<!-- ── Help overlay ── -->
<div id="ggv-help-overlay" onclick="if(event.target===this)ggvHelp()" style="display:none;position:fixed;inset:0;background:rgba(0,0,0,0.65);z-index:10000;align-items:flex-start;justify-content:center;padding:24px 16px;overflow-y:auto;">
  <div style="background:#1a1f2e;border:1px solid #2d3748;border-radius:14px;padding:28px 32px;width:100%;max-width:660px;font-family:-apple-system,BlinkMacSystemFont,'Segoe UI',sans-serif;box-shadow:0 20px 60px rgba(0,0,0,.8);color:#e2e8f0;">
    <div style="display:flex;align-items:center;justify-content:space-between;margin-bottom:22px;">
      <span style="font-size:16px;font-weight:700;color:#63b3ed;">&#9432; GGV Help</span>
      <button onclick="ggvHelp()" style="background:none;border:none;color:#718096;font-size:20px;cursor:pointer;line-height:1;padding:0 4px;">&#x2715;</button>
    </div>

    <!-- Edge labels -->
    <div style="margin-bottom:18px;">
      <div style="font-size:11px;font-weight:700;text-transform:uppercase;letter-spacing:.07em;color:#4a5568;margin-bottom:10px;">Edge Labels (blue numbers on arrows)</div>
      <table style="border-collapse:collapse;width:100%;font-size:13px;">
        <tr><td style="padding:4px 0 4px 0;width:56%;color:#a0aec0;">Number value</td><td style="padding:4px 0;color:#cbd5e1;">Number of commits condensed into that edge</td></tr>
        <tr><td style="padding:4px 0;color:#a0aec0;">Font size</td><td style="padding:4px 0;color:#cbd5e1;">Proportional to the number of changed files in that range</td></tr>
        <tr><td style="padding:4px 0;color:#a0aec0;">Hover edge label</td><td style="padding:4px 0;color:#cbd5e1;">Tooltip listing the changed files</td></tr>
        <tr><td style="padding:4px 0;color:#a0aec0;">Left-click edge label</td><td style="padding:4px 0;color:#cbd5e1;">Opens <code style="background:#2d3748;border-radius:3px;padding:1px 5px;font-size:11px;">git difftool</code> for that range</td></tr>
        <tr><td style="padding:4px 0;color:#a0aec0;">Right-click edge label</td><td style="padding:4px 0;color:#cbd5e1;">Context menu: AI diff+log, AI diff-only, AI log-only</td></tr>
      </table>
    </div>

    <!-- Edges -->
    <div style="margin-bottom:18px;">
      <div style="font-size:11px;font-weight:700;text-transform:uppercase;letter-spacing:.07em;color:#4a5568;margin-bottom:10px;">Edges (arrows between commits)</div>
      <table style="border-collapse:collapse;width:100%;font-size:13px;">
        <tr><td style="padding:4px 0;width:56%;color:#a0aec0;">Hover edge</td><td style="padding:4px 0;color:#cbd5e1;">Tooltip listing all commits condensed into that range</td></tr>
        <tr><td style="padding:4px 0;color:#a0aec0;">Click edge</td><td style="padding:4px 0;color:#cbd5e1;">Opens the GitLab / GitHub compare view for that range</td></tr>
      </table>
    </div>

    <!-- Commit nodes -->
    <div style="margin-bottom:18px;">
      <div style="font-size:11px;font-weight:700;text-transform:uppercase;letter-spacing:.07em;color:#4a5568;margin-bottom:10px;">Commit Nodes</div>
      <table style="border-collapse:collapse;width:100%;font-size:13px;">
        <tr><td style="padding:4px 0;width:56%;color:#a0aec0;">Click node</td><td style="padding:4px 0;color:#cbd5e1;">Copies the full 40-character SHA to the clipboard (amber flash)</td></tr>
        <tr><td style="padding:4px 0;color:#a0aec0;">Drag node onto another</td><td style="padding:4px 0;color:#cbd5e1;">Opens the forge compare view — always corrected to older&#8594;newer</td></tr>
        <tr><td style="padding:4px 0;color:#a0aec0;">Ctrl + drag onto another</td><td style="padding:4px 0;color:#cbd5e1;">Opens the web server diff view for that range</td></tr>
        <tr><td style="padding:4px 0;color:#a0aec0;">Hover SVG background</td><td style="padding:4px 0;color:#cbd5e1;">Tooltip: repo name, current branch, HEAD commit, author, date</td></tr>
        <tr><td style="padding:4px 0;color:#a0aec0;vertical-align:top;">Right-click node</td><td style="padding:4px 0;color:#cbd5e1;">Context menu (see below)</td></tr>
      </table>
    </div>

    <!-- Node colors -->
    <div style="margin-bottom:18px;">
      <div style="font-size:11px;font-weight:700;text-transform:uppercase;letter-spacing:.07em;color:#4a5568;margin-bottom:10px;">Node Colors</div>
      <table style="border-collapse:collapse;width:100%;font-size:13px;">
        <tr><td style="padding:4px 0;width:56%;"><span style="background:#b7791f;color:#fffbeb;border-radius:4px;padding:1px 8px;font-size:11px;">yellow</span></td><td style="padding:4px 0;color:#cbd5e1;">Current checkout (HEAD)</td></tr>
        <tr><td style="padding:4px 0;"><span style="background:#1e3a5f;color:#63b3ed;border-radius:4px;padding:1px 8px;font-size:11px;">blue</span></td><td style="padding:4px 0;color:#cbd5e1;">Local branch tip</td></tr>
        <tr><td style="padding:4px 0;"><span style="background:#1c4532;color:#68d391;border-radius:4px;padding:1px 8px;font-size:11px;">green</span></td><td style="padding:4px 0;color:#cbd5e1;">Remote-tracking branch tip</td></tr>
        <tr><td style="padding:4px 0;"><span style="background:#521b41;color:#fbb6ce;border-radius:4px;padding:1px 8px;font-size:11px;">pink</span></td><td style="padding:4px 0;color:#cbd5e1;">Tag</td></tr>
        <tr><td style="padding:4px 0;"><span style="background:#744210;color:#fbd38d;border-radius:4px;padding:1px 8px;font-size:11px;">orange</span></td><td style="padding:4px 0;color:#cbd5e1;">Other ref (e.g. stash, notes)</td></tr>
        <tr><td style="padding:4px 0;"><span style="background:#1a1f2e;color:#a0aec0;border:1px solid #4a5568;border-radius:4px;padding:1px 8px;font-size:11px;">dark</span></td><td style="padding:4px 0;color:#cbd5e1;">Merge junction or root commit</td></tr>
      </table>
    </div>

    <!-- Right-click context menu -->
    <div style="margin-bottom:18px;">
      <div style="font-size:11px;font-weight:700;text-transform:uppercase;letter-spacing:.07em;color:#4a5568;margin-bottom:10px;">Right-Click Context Menu on Commit Nodes</div>
      <table style="border-collapse:collapse;width:100%;font-size:13px;">
        <tr><td style="padding:4px 0;width:56%;color:#a0aec0;">Select / Change first commit</td><td style="padding:4px 0;color:#cbd5e1;">Pin a commit as the start of a manual compare range</td></tr>
        <tr><td style="padding:4px 0;color:#a0aec0;">Compare with &lt;sha&gt;…</td><td style="padding:4px 0;color:#cbd5e1;">Open diff view between pinned and this commit</td></tr>
        <tr><td style="padding:4px 0;color:#a0aec0;">Compare with AI…</td><td style="padding:4px 0;color:#cbd5e1;">AI summary (diff + log metadata) for the pinned range</td></tr>
        <tr><td style="padding:4px 0;color:#a0aec0;">Compare with AI diff…</td><td style="padding:4px 0;color:#cbd5e1;">AI summary — diff only, no commit log</td></tr>
        <tr><td style="padding:4px 0;color:#a0aec0;">Compare with AI log…</td><td style="padding:4px 0;color:#cbd5e1;">AI summary — commit log only, no diff</td></tr>
        <tr><td style="padding:4px 0;color:#a0aec0;">Show Git Log…</td><td style="padding:4px 0;color:#cbd5e1;">Formatted commit list between pinned and this commit</td></tr>
        <tr><td style="padding:4px 0;color:#a0aec0;">Copy SHA</td><td style="padding:4px 0;color:#cbd5e1;">Copies full 40-character commit hash</td></tr>
        <tr><td style="padding:4px 0;color:#a0aec0;">Copy branch / tag</td><td style="padding:4px 0;color:#cbd5e1;">Copies the branch or tag name at this commit</td></tr>
        <tr><td style="padding:4px 0;color:#a0aec0;">Delete local / remote branch</td><td style="padding:4px 0;color:#cbd5e1;">Force-deletes branch after confirmation</td></tr>
        <tr><td style="padding:4px 0;color:#a0aec0;">Delete Tag (local + remote)</td><td style="padding:4px 0;color:#cbd5e1;">Removes tag locally and from all remotes after confirmation</td></tr>
        <tr><td style="padding:4px 0;color:#a0aec0;">Checkout branch</td><td style="padding:4px 0;color:#cbd5e1;">Runs <code style="background:#2d3748;border-radius:3px;padding:1px 5px;font-size:11px;">git checkout &lt;branch&gt;</code></td></tr>
      </table>
    </div>

    <!-- Diff view -->
    <div style="margin-bottom:18px;">
      <div style="font-size:11px;font-weight:700;text-transform:uppercase;letter-spacing:.07em;color:#4a5568;margin-bottom:10px;">Diff / Commit View (opens in new tab)</div>
      <table style="border-collapse:collapse;width:100%;font-size:13px;">
        <tr><td style="padding:4px 0;width:56%;color:#a0aec0;">Commit cards</td><td style="padding:4px 0;color:#cbd5e1;">Each card shows hash, author, age, branch/tag badges, subject, and number of changed files</td></tr>
        <tr><td style="padding:4px 0;color:#a0aec0;">Click commit hash</td><td style="padding:4px 0;color:#cbd5e1;">Opens the single-commit diff view for that commit</td></tr>
        <tr><td style="padding:4px 0;color:#a0aec0;">Right-click commit card</td><td style="padding:4px 0;color:#cbd5e1;">Context menu to pin commit or compare with pinned</td></tr>
        <tr><td style="padding:4px 0;color:#a0aec0;">Click file header</td><td style="padding:4px 0;color:#cbd5e1;">Collapse / expand that file&#39;s diff</td></tr>
        <tr><td style="padding:4px 0;color:#a0aec0;">File filter bar</td><td style="padding:4px 0;color:#cbd5e1;">Filter visible files by glob pattern (e.g. <code style="background:#2d3748;border-radius:3px;padding:1px 5px;font-size:11px;">*.rs *.toml</code>); persisted across views</td></tr>
        <tr><td style="padding:4px 0;color:#a0aec0;"><kbd style="background:#2d3748;color:#a0aec0;border:1px solid #4a5568;border-radius:4px;padding:1px 7px;font-size:11px;">[</kbd></td><td style="padding:4px 0;color:#cbd5e1;">Navigate to older (parent) commit</td></tr>
        <tr><td style="padding:4px 0;color:#a0aec0;"><kbd style="background:#2d3748;color:#a0aec0;border:1px solid #4a5568;border-radius:4px;padding:1px 7px;font-size:11px;">]</kbd></td><td style="padding:4px 0;color:#cbd5e1;">Navigate to newer (child) commit</td></tr>
        <tr><td style="padding:4px 0;color:#a0aec0;"><kbd style="background:#2d3748;color:#a0aec0;border:1px solid #4a5568;border-radius:4px;padding:1px 7px;font-size:11px;">?</kbd></td><td style="padding:4px 0;color:#cbd5e1;">Toggle keyboard shortcut overlay</td></tr>
        <tr><td style="padding:4px 0;color:#a0aec0;">Diff suppressed notice</td><td style="padding:4px 0;color:#cbd5e1;">Shown when changed files exceed the <code style="background:#2d3748;border-radius:3px;padding:1px 5px;font-size:11px;">-M</code> limit (default 100); raise with <code style="background:#2d3748;border-radius:3px;padding:1px 5px;font-size:11px;">-M 0</code> to disable</td></tr>
      </table>
    </div>

    <!-- Filter bar -->
    <div style="margin-bottom:18px;">
      <div style="font-size:11px;font-weight:700;text-transform:uppercase;letter-spacing:.07em;color:#4a5568;margin-bottom:10px;">Filter Bar (top-right of this page)</div>
      <table style="border-collapse:collapse;width:100%;font-size:13px;">
        <tr><td style="padding:4px 0;width:56%;color:#a0aec0;">Filter input</td><td style="padding:4px 0;color:#cbd5e1;">Glob patterns to pre-filter diff views (e.g. <code style="background:#2d3748;border-radius:3px;padding:1px 5px;font-size:11px;">src/ *.cs</code>)</td></tr>
        <tr><td style="padding:4px 0;color:#a0aec0;">Orange dot ●</td><td style="padding:4px 0;color:#cbd5e1;">Indicates an active filter is applied to diff views</td></tr>
        <tr><td style="padding:4px 0;color:#a0aec0;">Set / Enter</td><td style="padding:4px 0;color:#cbd5e1;">Save filter — persisted in browser storage across sessions</td></tr>
        <tr><td style="padding:4px 0;color:#a0aec0;">✕</td><td style="padding:4px 0;color:#cbd5e1;">Clear active filter</td></tr>
      </table>
    </div>

    <!-- General -->
    <div>
      <div style="font-size:11px;font-weight:700;text-transform:uppercase;letter-spacing:.07em;color:#4a5568;margin-bottom:10px;">General</div>
      <table style="border-collapse:collapse;width:100%;font-size:13px;">
        <tr><td style="padding:4px 0;width:56%;color:#a0aec0;">Auto-reload</td><td style="padding:4px 0;color:#cbd5e1;">Page reloads automatically when GGV regenerates the SVG</td></tr>
        <tr><td style="padding:4px 0;color:#a0aec0;"><kbd style="background:#2d3748;color:#a0aec0;border:1px solid #4a5568;border-radius:4px;padding:1px 7px;font-size:11px;">?</kbd></td><td style="padding:4px 0;color:#cbd5e1;">Toggle this help overlay</td></tr>
        <tr><td style="padding:4px 0;color:#a0aec0;"><kbd style="background:#2d3748;color:#a0aec0;border:1px solid #4a5568;border-radius:4px;padding:1px 7px;font-size:11px;">Esc</kbd></td><td style="padding:4px 0;color:#cbd5e1;">Close this help overlay</td></tr>
      </table>
    </div>
  </div>
</div>
<script>
(function(){{
  var inp = document.getElementById('ggv-flt-inp');
  var ind = document.getElementById('ggv-flt-ind');
  function refresh() {{
    var v = localStorage.getItem('ggv-diff-filter') || '';
    inp.value = v;
    ind.style.display = v ? 'inline' : 'none';
    ind.title = v ? 'Active filter: ' + v : '';
  }}
  refresh();
  document.addEventListener('visibilitychange', function() {{ if (!document.hidden) refresh(); }});
  window.addEventListener('focus', refresh);
  inp.addEventListener('keydown', function(e){{ if(e.key==='Enter') ggvSave(); }});
  window.ggvSave = function(){{
    var v = inp.value.trim();
    if(v) localStorage.setItem('ggv-diff-filter', v);
    else localStorage.removeItem('ggv-diff-filter');
    refresh();
  }};
  window.ggvClear = function(){{
    localStorage.removeItem('ggv-diff-filter');
    inp.value = '';
    refresh();
  }};
  var overlay = document.getElementById('ggv-help-overlay');
  window.ggvHelp = function(){{
    var visible = overlay.style.display === 'flex';
    overlay.style.display = visible ? 'none' : 'flex';
  }};
  document.addEventListener('keydown', function(e){{
    if (e.target.tagName === 'INPUT' || e.target.tagName === 'TEXTAREA') return;
    if (e.key === '?') {{ ggvHelp(); return; }}
    if (e.key === 'Escape') {{ overlay.style.display = 'none'; }}
  }});
}})();
</script>
</body>
</html>"#;

/// The page for two commits without differences.
pub const NO_DIFF_PAGE: &'static str = r#"<html><head><meta charset="utf-8"><style>
body{{font-family:-apple-system,BlinkMacSystemFont,"Segoe UI",sans-serif;display:flex;align-items:center;justify-content:center;height:100vh;margin:0;background:{bg}}}
.box{{background:{box_bg};border:1px solid {box_border};border-radius:8px;padding:24px 32px;text-align:center;box-shadow:0 2px 12px rgba(0,0,0,.15)}}
h3{{margin:0 0 8px;color:{text}}}p{{margin:0 0 16px;color:{sub}}}button{{padding:6px 20px;cursor:pointer;border-radius:4px;border:1px solid {box_border};background:{box_bg};color:{text}}}
</style></head><body><div class="box">
<h3>No Differences Found</h3>
<p>{s1} &rarr; {s2} are identical.</p>
<button onclick="window.close()">Close</button>
</div></body></html>"#;

/// A button of the commit navigation, behind the address that it leads to.
pub const NAV_LINK: &'static str = r#" title="{title}" style="display:inline-flex;align-items:center;gap:4px;padding:5px 10px;background:rgba(30,36,54,0.92);color:#a0aec0;border:1px solid #2d3748;border-radius:6px;font-family:monospace;font-size:12px;text-decoration:none;cursor:pointer;transition:border-color .15s;" onmouseover="this.style.borderColor='#63b3ed'" onmouseout="this.style.borderColor='#2d3748'">{label}</a>"#;

/// A button of the commit navigation that leads nowhere.
pub const NAV_PLACE: &'static str = r#"<span style="display:inline-flex;align-items:center;gap:4px;padding:5px 10px;background:rgba(30,36,54,0.5);color:#4a5568;border:1px solid #1e2a3a;border-radius:6px;font-family:monospace;font-size:12px;">{label}</span>"#;

/// The commit navigation, in front of its buttons.
pub const NAV_OPEN: &'static str = r#"<div style="position:fixed;bottom:16px;right:16px;display:flex;gap:6px;z-index:9999;">
  "#;

/// The commit navigation, from its buttons to the commits that its script knows.
pub const NAV_HELP: &'static str = r#"
  <button onclick="ggvToggleHelp()" title="Keyboard shortcuts  ?" style="display:inline-flex;align-items:center;padding:5px 10px;background:rgba(30,36,54,0.92);color:#a0aec0;border:1px solid #2d3748;border-radius:6px;font-family:monospace;font-size:12px;cursor:pointer;" onmouseover="this.style.borderColor='#63b3ed'" onmouseout="this.style.borderColor='#2d3748'">?</button>
</div>
<div id="ggv-help-overlay" style="display:none;position:fixed;inset:0;background:rgba(0,0,0,0.6);z-index:10000;align-items:center;justify-content:center;">
  <div style="background:#1a1f2e;border:1px solid #2d3748;border-radius:12px;padding:28px 32px;min-width:320px;font-family:-apple-system,BlinkMacSystemFont,'Segoe UI',sans-serif;box-shadow:0 16px 48px rgba(0,0,0,.7);">
    <div style="display:flex;align-items:center;justify-content:space-between;margin-bottom:20px;">
      <span style="color:#e2e8f0;font-size:15px;font-weight:600;">Keyboard Shortcuts</span>
      <button onclick="ggvToggleHelp()" style="background:none;border:none;color:#718096;font-size:18px;cursor:pointer;line-height:1;">&#x2715;</button>
    </div>
    <table style="border-collapse:collapse;width:100%;color:#e2e8f0;font-size:13px;">
      <tr><td style="padding:6px 0;color:#718096;font-size:11px;font-weight:600;text-transform:uppercase;letter-spacing:.05em;" colspan="2">Navigation</td></tr>
      <tr>
        <td style="padding:5px 0;width:80px;"><kbd style="background:#2d3748;color:#a0aec0;border:1px solid #4a5568;border-radius:4px;padding:2px 8px;font-family:monospace;font-size:12px;">[</kbd></td>
        <td style="padding:5px 0;color:#cbd5e1;">Older commit (parent)</td>
      </tr>
      <tr>
        <td style="padding:5px 0;"><kbd style="background:#2d3748;color:#a0aec0;border:1px solid #4a5568;border-radius:4px;padding:2px 8px;font-family:monospace;font-size:12px;">]</kbd></td>
        <td style="padding:5px 0;color:#cbd5e1;">Newer commit (child)</td>
      </tr>
      <tr><td style="padding:10px 0 6px;color:#718096;font-size:11px;font-weight:600;text-transform:uppercase;letter-spacing:.05em;" colspan="2">Files</td></tr>
      <tr>
        <td style="padding:5px 0;"><kbd style="background:#2d3748;color:#a0aec0;border:1px solid #4a5568;border-radius:4px;padding:2px 8px;font-family:monospace;font-size:12px;">Enter</kbd></td>
        <td style="padding:5px 0;color:#cbd5e1;">Apply file filter</td>
      </tr>
      <tr><td style="padding:10px 0 6px;color:#718096;font-size:11px;font-weight:600;text-transform:uppercase;letter-spacing:.05em;" colspan="2">General</td></tr>
      <tr>
        <td style="padding:5px 0;"><kbd style="background:#2d3748;color:#a0aec0;border:1px solid #4a5568;border-radius:4px;padding:2px 8px;font-family:monospace;font-size:12px;">?</kbd></td>
        <td style="padding:5px 0;color:#cbd5e1;">Toggle this help</td>
      </tr>
      <tr>
        <td style="padding:5px 0;"><kbd style="background:#2d3748;color:#a0aec0;border:1px solid #4a5568;border-radius:4px;padding:2px 8px;font-family:monospace;font-size:12px;">Esc</kbd></td>
        <td style="padding:5px 0;color:#cbd5e1;">Close this help</td>
      </tr>
    </table>
  </div>
</div>
<script>
(function(){
"#;

/// The commit navigation, behind the commits that its script knows.
pub const NAV_SCRIPT: &'static str = r#"  var overlay = document.getElementById('ggv-help-overlay');
  window.ggvToggleHelp = function() {
    var visible = overlay.style.display === 'flex';
    overlay.style.display = visible ? 'none' : 'flex';
  };
  overlay.addEventListener('click', function(e) {
    if (e.target === overlay) overlay.style.display = 'none';
  });
  document.addEventListener('keydown', function(e) {
    if (e.target.tagName === 'INPUT' || e.target.tagName === 'TEXTAREA') return;
    if (e.key === '?') { ggvToggleHelp(); return; }
    if (e.key === 'Escape') { overlay.style.display = 'none'; return; }
    if (overlay.style.display === 'flex') return;
    if (e.key === '[' && older) { window.location.href = '/diff2html-single?commit=' + older; }
    if (e.key === ']' && newer) { window.location.href = '/diff2html-single?commit=' + newer; }
  });
})();
</script>
"#;

/// The commits and the diff of a range, to be put below a summary.
pub const DIFF_SECTION: &'static str = r#"<style>
/* ── File filter bar ── */
.ggv-filter-bar {{
  display: flex; align-items: center; gap: 8px; flex-wrap: wrap;
  padding: 8px 16px; background: {bg}; border-bottom: 1px solid {section_border};
  font-family: -apple-system, BlinkMacSystemFont, "Segoe UI", sans-serif;
  font-size: 13px; margin-top: 32px; border-top: 2px solid {section_border};
}}
.ggv-flt-label {{ color: {text}; white-space: nowrap; }}
.ggv-flt-input {{
  flex: 1; max-width: 360px; padding: 4px 8px;
  border: 1px solid {section_border}; border-radius: 4px;
  background: {card_bg}; color: {text};
  font-family: monospace; font-size: 12px;
}}
.ggv-flt-btn {{
  padding: 4px 12px; border-radius: 4px; cursor: pointer;
  border: 1px solid {section_border}; background: {card_bg}; color: {text};
  font-size: 12px;
}}
.ggv-flt-btn:hover {{ background: {card_border}; }}
.ggv-flt-active {{ color: #f6ad55; font-size: 11px; white-space: nowrap; }}
/* ── Commit history section ── */
.ggv-history {{
  font-family: -apple-system, BlinkMacSystemFont, "Segoe UI", sans-serif;
  background: {bg}; color: {text};
  padding: 24px 16px 0;
}}
.ggv-history .page {{ max-width: 1200px; margin: 0 auto; padding-bottom: 24px; border-bottom: 2px solid {section_border}; }}
.ggv-history .hdr {{
  display: flex; align-items: center; gap: 10px;
  margin-bottom: 16px; flex-wrap: wrap;
}}
.ggv-history .hdr h1 {{ font-size: 15px; color: {h1_col}; font-weight: 600; }}
.ggv-history .sha {{
  font-family: monospace; font-size: 12px;
  background: {sha_bg}; padding: 2px 8px;
  border-radius: 4px; color: {sha_fg};
}}
.ggv-history .arrow {{ color: {dim}; }}
.ggv-history .count {{ font-size: 12px; color: {dim}; margin-left: auto; }}
.ggv-history .commit {{
  background: {card_bg}; border: 1px solid {card_border};
  border-radius: 8px; padding: 12px 16px; margin-bottom: 6px;
}}
.ggv-history .commit:hover {{ border-color: {card_hover}; }}
.ggv-history .commit.compare-first {{ border-color: #f6ad55 !important; box-shadow: 0 0 0 2px rgba(246,173,85,0.2); }}
.ggv-history .meta {{
  display: flex; align-items: center; gap: 6px;
  margin-bottom: 5px; flex-wrap: wrap;
}}
.ggv-history .hash {{
  font-family: monospace; font-size: 12px;
  background: {hash_bg}; color: {hash_fg};
  padding: 1px 6px; border-radius: 4px; font-weight: 600;
  text-decoration: none; cursor: pointer;
}}
.ggv-history .hash:hover {{ opacity: 0.8; text-decoration: underline; }}
.ggv-history .author {{ font-size: 12px; color: {sub}; }}
.ggv-history .time {{ font-size: 12px; color: {dim}; margin-left: auto; }}
.ggv-history .subject {{ font-size: 13px; font-weight: 500; color: {text}; }}
.ggv-history .body {{
  font-size: 12px; color: {sub}; white-space: pre-wrap;
  margin-top: 5px; line-height: 1.5;
}}
.ggv-history .ref-head {{
  background: {rh_bg}; color: {rh_fg};
  padding: 1px 5px; border-radius: 3px; font-size: 11px; font-weight: 700;
}}
.ggv-history .ref-branch {{
  background: {rb_bg}; color: {rb_fg};
  padding: 1px 5px; border-radius: 3px; font-size: 11px;
}}
.ggv-history .ref-remote {{
  background: {rr_bg}; color: {rr_fg};
  padding: 1px 5px; border-radius: 3px; font-size: 11px;
}}
.ggv-history .ref-tag {{
  background: {rt_bg}; color: {rt_fg};
  padding: 1px 5px; border-radius: 3px; font-size: 11px;
}}
.ggv-history .empty {{ color: {dim}; font-size: 13px; padding: 20px 0; }}
.ggv-history .file-count {{ font-size: 11px; color: {dim}; white-space: nowrap; }}
/* ── diff2html section ── */
{css}
.ggv-diff {{ padding: 16px; max-width: 1200px; margin: 0 auto; background: #fff; color: #24292e; }}
.d2h-file-header {{ cursor: pointer; user-select: none; }}
.d2h-file-header:hover {{ background: #e8eaed; }}
.ggv-toggle {{ float: right; font-size: 11px; color: #888; margin-left: 8px; transition: transform 0.15s; display: inline-block; }}
.ggv-collapsed .ggv-toggle {{ transform: rotate(-90deg); }}
.ggv-file-body {{ overflow: hidden; }}
.ggv-file-body.ggv-collapsed {{ display: none; }}
</style>
<div class="ggv-filter-bar">
  <span class="ggv-flt-label">File filter:</span>
  <input id="ggv-flt" class="ggv-flt-input" type="text" placeholder="*.cpp *.h  or  src/ *.cs">
  <button class="ggv-flt-btn" onclick="ggvApplyFilter()">Apply</button>
  <button class="ggv-flt-btn" onclick="ggvClearFilter()">Clear</button>
</div>
<div class="ggv-history">
  <div class="page">
    <div class="hdr">
      <h1>Commit History</h1>
      <span class="sha">{s1}</span>
      <span class="arrow">&#8594;</span>
      <span class="sha">{s2}</span>
      <span class="count">{count_label}</span>
    </div>
    {commit_cards}
  </div>
</div>
<div class="ggv-diff">
<div id="ggv-diff-content"></div>
</div>
<script>{js}</script>
<script>
document.getElementById('ggv-diff-content').innerHTML =
  Diff2Html.html({diff_json}, {{
    drawFileList: true,
    matching: 'lines',
    outputFormat: 'side-by-side'
  }});
document.querySelectorAll('.d2h-file-wrapper').forEach(function(wrapper) {{
  var header = wrapper.querySelector('.d2h-file-header');
  var body = header && header.nextElementSibling;
  if (!header || !body) return;
  body.classList.add('ggv-file-body');
  var arrow = document.createElement('span');
  arrow.className = 'ggv-toggle';
  arrow.textContent = '\u25bc';
  header.appendChild(arrow);
  header.addEventListener('click', function() {{
    var collapsed = body.classList.toggle('ggv-collapsed');
    header.classList.toggle('ggv-collapsed', collapsed);
  }});
}});
(function(){{
  var inp = document.getElementById('ggv-flt');
  var active = {filter_json};
  inp.value = active || localStorage.getItem('ggv-diff-filter') || '';
  inp.addEventListener('keydown', function(e){{ if(e.key==='Enter') ggvApplyFilter(); }});
}})();
function ggvApplyFilter(){{
  var v = document.getElementById('ggv-flt').value.trim();
  if (v) localStorage.setItem('ggv-diff-filter', v);
  else localStorage.removeItem('ggv-diff-filter');
  var u = new URL(window.location.href);
  if(v){{ u.searchParams.set('filter',v); }} else {{ u.searchParams.delete('filter'); }}
  window.location.href = u.toString();
}}
function ggvClearFilter(){{
  localStorage.removeItem('ggv-diff-filter');
  var u = new URL(window.location.href);
  u.searchParams.delete('filter');
  window.location.href = u.toString();
}}
(function(){{
  var KEY = 'ggv-compare-first';
  var firstSha = localStorage.getItem(KEY);
  var ctxMenu = null;
  function removeMenu() {{ if (ctxMenu) {{ ctxMenu.remove(); ctxMenu = null; }} }}
  function makeItem(label, action) {{
    var item = document.createElement('div');
    item.textContent = label;
    item.style.cssText = 'padding:8px 16px;cursor:pointer;color:#e2e8f0;font-size:13px;white-space:nowrap;';
    item.addEventListener('mouseenter', function() {{ item.style.background = '#2d3748'; }});
    item.addEventListener('mouseleave', function() {{ item.style.background = ''; }});
    item.addEventListener('click', function(e) {{ e.stopPropagation(); removeMenu(); action(); }});
    return item;
  }}
  function makeDivider() {{
    var d = document.createElement('div');
    d.style.cssText = 'height:1px;background:#2d3748;margin:4px 0;';
    return d;
  }}
  function applyHighlight() {{
    document.querySelectorAll('.commit[data-hash]').forEach(function(el) {{
      el.classList.toggle('compare-first', el.dataset.hash === firstSha);
    }});
  }}
  document.addEventListener('click', removeMenu);
  document.addEventListener('keydown', function(e) {{ if (e.key === 'Escape') removeMenu(); }});
  document.querySelectorAll('.commit[data-hash]').forEach(function(el) {{
    el.addEventListener('contextmenu', function(e) {{
      e.preventDefault();
      removeMenu();
      var sha = el.dataset.hash;
      var short = sha.slice(0, 7);
      ctxMenu = document.createElement('div');
      ctxMenu.style.cssText = 'position:fixed;left:' + e.clientX + 'px;top:' + e.clientY + 'px;background:#1a1f2e;border:1px solid #2d3748;border-radius:8px;padding:4px 0;z-index:9999;min-width:210px;box-shadow:0 8px 24px rgba(0,0,0,.6);font-family:"Segoe UI",sans-serif;';
      if (firstSha && firstSha !== sha) {{
        ctxMenu.appendChild(makeItem('Compare with \u2026' + firstSha.slice(0, 7), function() {{
          window.open(window.location.origin + '/diff2html?from=' + firstSha + '&to=' + sha, '_blank');
        }}));
        ctxMenu.appendChild(makeDivider());
      }}
      if (firstSha === sha) {{
        ctxMenu.appendChild(makeItem('Deselect first commit', function() {{
          firstSha = null;
          localStorage.removeItem(KEY);
          applyHighlight();
        }}));
      }} else {{
        ctxMenu.appendChild(makeItem(firstSha ? 'Change first commit' : 'Select as first commit', function() {{
          firstSha = sha;
          localStorage.setItem(KEY, sha);
          applyHighlight();
        }}));
      }}
      document.body.appendChild(ctxMenu);
      var r = ctxMenu.getBoundingClientRect();
      if (r.right > window.innerWidth) ctxMenu.style.left = (e.clientX - r.width) + 'px';
      if (r.bottom > window.innerHeight) ctxMenu.style.top = (e.clientY - r.height) + 'px';
    }});
  }});
  applyHighlight();
}})();
</script>"#;

/// The link to the forge in the filter bar.
pub const FORGE_LINK: &'static str = r#"<a class="ggv-flt-link" href="{base}{compare_segment}{sha1}...{sha2}" target="_blank">GitLab</a>"#;

/// The bar above a diff.
pub const FILTER_BAR: &'static str = r#"<div class="ggv-filter-bar">
  <span class="ggv-flt-label">File filter:</span>
  <input id="ggv-flt" class="ggv-flt-input" type="text" placeholder="*.cpp *.h  or  src/ *.cs">
  <button class="ggv-flt-btn" onclick="ggvApplyFilter()">Apply</button>
  <button class="ggv-flt-btn" onclick="ggvClearFilter()">Clear</button>
  <button class="ggv-flt-link" onclick="fetch('{difftool_url}')">Git Difftool</button>
  {gitlab_link}
</div>"#;

/// The diff of a range on a page of its own.
pub const DIFF_PART: &'static str = r#"<div class="ggv-diff">
<div id="diff"></div>
</div>
<script>{js}</script>
<script>
document.getElementById('diff').innerHTML =
  Diff2Html.html({diff_json}, {{
    drawFileList: true,
    matching: 'lines',
    outputFormat: 'side-by-side'
  }});
document.querySelectorAll('.d2h-file-wrapper').forEach(function(wrapper) {{
  var header = wrapper.querySelector('.d2h-file-header');
  var body = header && header.nextElementSibling;
  if (!header || !body) return;
  body.classList.add('ggv-file-body');
  var arrow = document.createElement('span');
  arrow.className = 'ggv-toggle';
  arrow.textContent = '\u25bc';
  header.appendChild(arrow);
  header.addEventListener('click', function() {{
    var collapsed = body.classList.toggle('ggv-collapsed');
    header.classList.toggle('ggv-collapsed', collapsed);
  }});
}});
(function(){{
  var inp = document.getElementById('ggv-flt');
  var active = {filter_json};
  inp.value = active || localStorage.getItem('ggv-diff-filter') || '';
  inp.addEventListener('keydown', function(e){{ if(e.key==='Enter') ggvApplyFilter(); }});
}})();
function ggvApplyFilter(){{
  var v = document.getElementById('ggv-flt').value.trim();
  if (v) localStorage.setItem('ggv-diff-filter', v);
  else localStorage.removeItem('ggv-diff-filter');
  var u = new URL(window.location.href);
  if(v){{ u.searchParams.set('filter',v); }} else {{ u.searchParams.delete('filter'); }}
  window.location.href = u.toString();
}}
function ggvClearFilter(){{
  localStorage.removeItem('ggv-diff-filter');
  var u = new URL(window.location.href);
  u.searchParams.delete('filter');
  window.location.href = u.toString();
}}
</script>"#;

/// What stands in place of a diff of too many files.
pub const SUPPRESSED_NOTICE: &'static str = r#"<div style="font-family:-apple-system,BlinkMacSystemFont,'Segoe UI',sans-serif;padding:24px 32px;font-size:13px;color:#f6ad55;background:#2d1a00;border:1px solid #744210;border-radius:8px;margin:24px auto;max-width:800px;">
  &#9888; Diff suppressed: <strong>{file_count} files</strong> changed, which exceeds the limit of <strong>{max_diff_files}</strong>.
  Use <code>-M &lt;number&gt;</code> to increase the limit, or <code>-M 0</code> to disable it.
</div>"#;

/// The page with the commits and the diff of a range.
pub const DIFF_PAGE: &'static str = r#"<!DOCTYPE html>
<html lang="en">
<head>
<meta charset="utf-8">
<title>{s1}..{s2}</title>
<style>
/* ── Commit history section ── */
* {{ box-sizing: border-box; margin: 0; padding: 0; }}
.ggv-history {{
  font-family: -apple-system, BlinkMacSystemFont, "Segoe UI", sans-serif;
  background: {bg}; color: {text};
  padding: 24px 16px 0;
}}
.ggv-history .page {{ max-width: 1200px; margin: 0 auto; padding-bottom: 24px; border-bottom: 2px solid {section_border}; }}
.ggv-history .hdr {{
  display: flex; align-items: center; gap: 10px;
  margin-bottom: 16px; flex-wrap: wrap;
}}
.ggv-history .hdr h1 {{ font-size: 15px; color: {h1_col}; font-weight: 600; }}
.ggv-history .sha {{
  font-family: monospace; font-size: 12px;
  background: {sha_bg}; padding: 2px 8px;
  border-radius: 4px; color: {sha_fg};
}}
.ggv-history .arrow {{ color: {dim}; }}
.ggv-history .count {{ font-size: 12px; color: {dim}; margin-left: auto; }}
.ggv-history .commit {{
  background: {card_bg}; border: 1px solid {card_border};
  border-radius: 8px; padding: 12px 16px; margin-bottom: 6px;
}}
.ggv-history .commit:hover {{ border-color: {card_hover}; }}
.ggv-history .commit.compare-first {{ border-color: #f6ad55 !important; box-shadow: 0 0 0 2px rgba(246,173,85,0.2); }}
.ggv-history .meta {{
  display: flex; align-items: center; gap: 6px;
  margin-bottom: 5px; flex-wrap: wrap;
}}
.ggv-history .hash {{
  font-family: monospace; font-size: 12px;
  background: {hash_bg}; color: {hash_fg};
  padding: 1px 6px; border-radius: 4px; font-weight: 600;
  text-decoration: none; cursor: pointer;
}}
.ggv-history .hash:hover {{ opacity: 0.8; text-decoration: underline; }}
.ggv-history .author {{ font-size: 12px; color: {sub}; }}
.ggv-history .time {{ font-size: 12px; color: {dim}; margin-left: auto; }}
.ggv-history .subject {{ font-size: 13px; font-weight: 500; color: {text}; }}
.ggv-history .body {{
  font-size: 12px; color: {sub}; white-space: pre-wrap;
  margin-top: 5px; line-height: 1.5;
}}
.ggv-history .ref-head {{
  background: {rh_bg}; color: {rh_fg};
  padding: 1px 5px; border-radius: 3px; font-size: 11px; font-weight: 700;
}}
.ggv-history .ref-branch {{
  background: {rb_bg}; color: {rb_fg};
  padding: 1px 5px; border-radius: 3px; font-size: 11px;
}}
.ggv-history .ref-remote {{
  background: {rr_bg}; color: {rr_fg};
  padding: 1px 5px; border-radius: 3px; font-size: 11px;
}}
.ggv-history .ref-tag {{
  background: {rt_bg}; color: {rt_fg};
  padding: 1px 5px; border-radius: 3px; font-size: 11px;
}}
.ggv-history .empty {{ color: {dim}; font-size: 13px; padding: 20px 0; }}
.ggv-history .file-count {{ font-size: 11px; color: {dim}; white-space: nowrap; }}
/* ── diff2html section ── */
{css}
.ggv-diff {{ padding: 16px; max-width: 1200px; margin: 0 auto; }}
.d2h-file-header {{ cursor: pointer; user-select: none; }}
.d2h-file-header:hover {{ background: #e8eaed; }}
.ggv-toggle {{ float: right; font-size: 11px; color: #888; margin-left: 8px; transition: transform 0.15s; display: inline-block; }}
.ggv-collapsed .ggv-toggle {{ transform: rotate(-90deg); }}
.ggv-file-body {{ overflow: hidden; }}
.ggv-file-body.ggv-collapsed {{ display: none; }}
/* ── File filter bar ── */
.ggv-filter-bar {{
  display: flex; align-items: center; gap: 8px; flex-wrap: wrap;
  padding: 8px 16px; background: {bg}; border-bottom: 1px solid {section_border};
  font-family: -apple-system, BlinkMacSystemFont, "Segoe UI", sans-serif;
  font-size: 13px; position: sticky; top: 0; z-index: 100;
}}
.ggv-flt-label {{ color: {text}; white-space: nowrap; }}
.ggv-flt-input {{
  flex: 1; max-width: 360px; padding: 4px 8px;
  border: 1px solid {section_border}; border-radius: 4px;
  background: {card_bg}; color: {text};
  font-family: monospace; font-size: 12px;
}}
.ggv-flt-btn {{
  padding: 4px 12px; border-radius: 4px; cursor: pointer;
  border: 1px solid {section_border}; background: {card_bg}; color: {text};
  font-size: 12px;
}}
.ggv-flt-btn:hover {{ background: {card_border}; }}
.ggv-flt-link {{
  padding: 4px 10px; border-radius: 4px; cursor: pointer;
  border: 1px solid {section_border}; background: {card_bg}; color: {text};
  font-size: 12px; text-decoration: none; white-space: nowrap;
}}
.ggv-flt-link:hover {{ background: {card_border}; text-decoration: none; }}
</style>
</head>
<body>
{diff_filter_bar}
<div class="ggv-history">
  <div class="page">
    <div class="hdr">
      <h1>Commit History</h1>
      <span class="sha">{s1}</span>
      <span class="arrow">&#8594;</span>
      <span class="sha">{s2}</span>
      <span class="count">{count_label}</span>
    </div>
    {commit_cards}
  </div>
</div>
{diff_section}
<script>
(function(){{
  var KEY = 'ggv-compare-first';
  var firstSha = localStorage.getItem(KEY);
  var ctxMenu = null;
  function removeMenu() {{ if (ctxMenu) {{ ctxMenu.remove(); ctxMenu = null; }} }}
  function makeItem(label, action) {{
    var item = document.createElement('div');
    item.textContent = label;
    item.style.cssText = 'padding:8px 16px;cursor:pointer;color:#e2e8f0;font-size:13px;white-space:nowrap;';
    item.addEventListener('mouseenter', function() {{ item.style.background = '#2d3748'; }});
    item.addEventListener('mouseleave', function() {{ item.style.background = ''; }});
    item.addEventListener('click', function(e) {{ e.stopPropagation(); removeMenu(); action(); }});
    return item;
  }}
  function makeDivider() {{
    var d = document.createElement('div');
    d.style.cssText = 'height:1px;background:#2d3748;margin:4px 0;';
    return d;
  }}
  function applyHighlight() {{
    document.querySelectorAll('.commit[data-hash]').forEach(function(el) {{
      el.classList.toggle('compare-first', el.dataset.hash === firstSha);
    }});
  }}
  document.addEventListener('click', removeMenu);
  document.addEventListener('keydown', function(e) {{ if (e.key === 'Escape') removeMenu(); }});
  document.querySelectorAll('.commit[data-hash]').forEach(function(el) {{
    el.addEventListener('contextmenu', function(e) {{
      e.preventDefault();
      removeMenu();
      var sha = el.dataset.hash;
      ctxMenu = document.createElement('div');
      ctxMenu.style.cssText = 'position:fixed;left:' + e.clientX + 'px;top:' + e.clientY + 'px;background:#1a1f2e;border:1px solid #2d3748;border-radius:8px;padding:4px 0;z-index:9999;min-width:210px;box-shadow:0 8px 24px rgba(0,0,0,.6);font-family:"Segoe UI",sans-serif;';
      if (firstSha && firstSha !== sha) {{
        ctxMenu.appendChild(makeItem('Compare with \u2026' + firstSha.slice(0, 7), function() {{
          window.open(window.location.origin + '/diff2html?from=' + firstSha + '&to=' + sha, '_blank');
        }}));
        ctxMenu.appendChild(makeDivider());
      }}
      if (firstSha === sha) {{
        ctxMenu.appendChild(makeItem('Deselect first commit', function() {{
          firstSha = null;
          localStorage.removeItem(KEY);
          applyHighlight();
        }}));
      }} else {{
        ctxMenu.appendChild(makeItem(firstSha ? 'Change first commit' : 'Select as first commit', function() {{
          firstSha = sha;
          localStorage.setItem(KEY, sha);
          applyHighlight();
        }}));
      }}
      document.body.appendChild(ctxMenu);
      var r = ctxMenu.getBoundingClientRect();
      if (r.right > window.innerWidth) ctxMenu.style.left = (e.clientX - r.width) + 'px';
      if (r.bottom > window.innerHeight) ctxMenu.style.top = (e.clientY - r.height) + 'px';
    }});
  }});
  applyHighlight();
}})();
</script>
</body>
</html>"#;

/// The card of a commit.
pub const COMMIT_CARD: &'static str = r#"<div class="commit" data-hash="{hash_raw}">
  <div class="meta">
    <a class="hash" href="/diff2html-single?commit={hash_raw}" title="View this commit">{hash}</a>{refs}<span class="author">{author}</span>
    <span class="time">{time}</span>{file_badge}
  </div>
  <div class="subject">{subject}</div>{body}
</div>"#;

/// The page with the commits of a range.
pub const LOG_PAGE: &'static str = r#"<!DOCTYPE html>
<html lang="en">
<head>
<meta charset="utf-8">
<title>Commit History</title>
<style>
* {{ box-sizing: border-box; margin: 0; padding: 0; }}
body {{
  font-family: -apple-system, BlinkMacSystemFont, "Segoe UI", sans-serif;
  background: {bg}; color: {text};
  padding: 32px 16px; min-height: 100vh;
}}
.page {{ max-width: 900px; margin: 0 auto; }}
.hdr {{
  display: flex; align-items: center; gap: 10px;
  margin-bottom: 24px; flex-wrap: wrap;
}}
.hdr h1 {{ font-size: 16px; color: {h1_col}; font-weight: 600; }}
.sha {{
  font-family: monospace; font-size: 12px;
  background: {sha_bg}; padding: 2px 8px;
  border-radius: 4px; color: {sha_fg};
}}
.arrow {{ color: {dim}; }}
.count {{ font-size: 12px; color: {dim}; margin-left: auto; }}
.commit {{
  background: {card_bg}; border: 1px solid {card_border};
  border-radius: 8px; padding: 14px 18px; margin-bottom: 8px;
}}
.commit:hover {{ border-color: {card_hover}; }}
.commit.compare-first {{ border-color: #f6ad55 !important; box-shadow: 0 0 0 2px rgba(246,173,85,0.2); }}
.meta {{
  display: flex; align-items: center; gap: 6px;
  margin-bottom: 6px; flex-wrap: wrap;
}}
.hash {{
  font-family: monospace; font-size: 12px;
  background: {hash_bg}; color: {hash_fg};
  padding: 1px 6px; border-radius: 4px; font-weight: 600;
  text-decoration: none; cursor: pointer;
}}
.hash:hover {{ opacity: 0.8; text-decoration: underline; }}
.author {{ font-size: 12px; color: {sub}; }}
.time {{ font-size: 12px; color: {dim}; margin-left: auto; }}
.subject {{ font-size: 14px; font-weight: 500; color: {text}; }}
.body {{
  font-size: 12px; color: {sub}; white-space: pre-wrap;
  margin-top: 6px; line-height: 1.6;
}}
.ref-head {{
  background: {rh_bg}; color: {rh_fg};
  padding: 1px 5px; border-radius: 3px; font-size: 11px; font-weight: 700;
}}
.ref-branch {{
  background: {rb_bg}; color: {rb_fg};
  padding: 1px 5px; border-radius: 3px; font-size: 11px;
}}
.ref-remote {{
  background: {rr_bg}; color: {rr_fg};
  padding: 1px 5px; border-radius: 3px; font-size: 11px;
}}
.ref-tag {{
  background: {rt_bg}; color: {rt_fg};
  padding: 1px 5px; border-radius: 3px; font-size: 11px;
}}
.empty {{ color: {dim}; font-size: 14px; text-align: center; padding: 40px; }}
.file-count {{ font-size: 11px; color: {dim}; white-space: nowrap; }}
</style>
</head>
<body>
<div class="page">
  <div class="hdr">
    <h1>Commit History</h1>
    <span class="sha">{sha1}</span>
    <span class="arrow">&#8594;</span>
    <span class="sha">{sha2}</span>
    <span class="count">{count_label}</span>
  </div>
  {cards}
</div>
<script>
(function() {{
  var KEY = 'ggv-compare-first';
  var firstSha = localStorage.getItem(KEY);
  var ctxMenu = null;
  function removeMenu() {{ if (ctxMenu) {{ ctxMenu.remove(); ctxMenu = null; }} }}
  function makeItem(label, action) {{
    var item = document.createElement('div');
    item.textContent = label;
    item.style.cssText = 'padding:8px 16px;cursor:pointer;color:#e2e8f0;font-size:13px;white-space:nowrap;';
    item.addEventListener('mouseenter', function() {{ item.style.background = '#2d3748'; }});
    item.addEventListener('mouseleave', function() {{ item.style.background = ''; }});
    item.addEventListener('click', function(e) {{ e.stopPropagation(); removeMenu(); action(); }});
    return item;
  }}
  function makeDivider() {{
    var d = document.createElement('div');
    d.style.cssText = 'height:1px;background:#2d3748;margin:4px 0;';
    return d;
  }}
  function applyHighlight() {{
    document.querySelectorAll('.commit[data-hash]').forEach(function(el) {{
      el.classList.toggle('compare-first', el.dataset.hash === firstSha);
    }});
  }}
  document.addEventListener('click', removeMenu);
  document.addEventListener('keydown', function(e) {{ if (e.key === 'Escape') removeMenu(); }});
  document.querySelectorAll('.commit[data-hash]').forEach(function(el) {{
    el.addEventListener('contextmenu', function(e) {{
      e.preventDefault();
      removeMenu();
      var sha = el.dataset.hash;
      ctxMenu = document.createElement('div');
      ctxMenu.style.cssText = 'position:fixed;left:' + e.clientX + 'px;top:' + e.clientY + 'px;background:#1a1f2e;border:1px solid #2d3748;border-radius:8px;padding:4px 0;z-index:9999;min-width:210px;box-shadow:0 8px 24px rgba(0,0,0,.6);font-family:"Segoe UI",sans-serif;';
      if (firstSha && firstSha !== sha) {{
        ctxMenu.appendChild(makeItem('Compare with \u2026' + firstSha.slice(0, 7), function() {{
          window.open(window.location.origin + '/diff2html?from=' + firstSha + '&to=' + sha, '_blank');
        }}));
        ctxMenu.appendChild(makeDivider());
      }}
      if (firstSha === sha) {{
        ctxMenu.appendChild(makeItem('Deselect first commit', function() {{
          firstSha = null;
          localStorage.removeItem(KEY);
          applyHighlight();
        }}));
      }} else {{
        ctxMenu.appendChild(makeItem(firstSha ? 'Change first commit' : 'Select as first commit', function() {{
          firstSha = sha;
          localStorage.setItem(KEY, sha);
          applyHighlight();
        }}));
      }}
      document.body.appendChild(ctxMenu);
      var r = ctxMenu.getBoundingClientRect();
      if (r.right > window.innerWidth) ctxMenu.style.left = (e.clientX - r.width) + 'px';
      if (r.bottom > window.innerHeight) ctxMenu.style.top = (e.clientY - r.height) + 'px';
    }});
  }});
  applyHighlight();
}})();
</script>
</body>
</html>"#;

/// The page with the summary of a range.
pub const SUMMARY_PAGE: &'static str = r#"<!DOCTYPE html>
<html lang="en">
<head>
<meta charset="utf-8">
<title>Diff Summary</title>
<style>
  * {{ box-sizing: border-box; margin: 0; padding: 0; }}
  body {{
    font-family: -apple-system, BlinkMacSystemFont, "Segoe UI", sans-serif;
    background: {bg}; color: {text};
    min-height: 100vh;
  }}
  .ai-wrapper {{
    display: flex; justify-content: center;
    align-items: flex-start; padding: 32px 16px;
  }}
  .card {{
    background: {card_bg}; border: 1px solid {card_border};
    border-radius: 12px; padding: 32px 40px;
    max-width: 960px; width: 100%;
    box-shadow: 0 20px 60px rgba(0,0,0,0.1);
  }}
  h1 {{ font-size: 18px; color: {h1_col}; margin-bottom: 16px; }}
  .shas {{
    font-family: monospace; font-size: 12px; color: {sub};
    margin-bottom: 24px; display: flex; gap: 8px; align-items: center;
  }}
  .sha {{ background: {sha_bg}; padding: 2px 8px; border-radius: 4px; color: {sha_fg}; }}
  .arrow {{ color: {dim}; }}
  .summary {{ line-height: 1.7; color: {text}; font-size: 14px; }}
  .summary h1, .summary h2, .summary h3, .summary h4 {{
    color: {h1_col}; margin: 20px 0 8px;
  }}
  .summary h1 {{ font-size: 20px; }}
  .summary h2 {{ font-size: 17px; }}
  .summary h3 {{ font-size: 15px; }}
  .summary p {{ margin: 8px 0; }}
  .summary ul, .summary ol {{ margin: 8px 0 8px 24px; }}
  .summary li {{ margin: 4px 0; }}
  .summary code {{
    font-family: monospace; font-size: 12px;
    background: {code_bg}; padding: 1px 5px; border-radius: 3px;
  }}
  .summary pre {{
    background: {code_bg}; border-radius: 6px; padding: 12px 16px;
    overflow-x: auto; margin: 10px 0;
  }}
  .summary pre code {{ background: none; padding: 0; font-size: 12px; }}
  .summary blockquote {{
    border-left: 3px solid {blockquote_border}; margin: 10px 0;
    padding: 4px 12px; color: {sub};
  }}
  .summary a {{ color: {h1_col}; }}
  .summary hr {{ border: none; border-top: 1px solid {card_border}; margin: 16px 0; }}
</style>
</head>
<body>
<div class="ai-wrapper">
<div class="card">
  <h1>AI Diff Summary</h1>
  <div class="shas">
    <span class="sha">{sha1}</span>
    <span class="arrow">&#8594;</span>
    <span class="sha">{sha2}</span>
  </div>
  <div class="summary">{summary_html}</div>
</div>
</div>
{diff_html}
</body>
</html>"#;

} // verus!
