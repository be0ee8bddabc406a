//! The per-project workflow integration: the exact payloads the installer
//! writes into a project, pinned by contract. Writing the files is file I/O
//! and lives outside the library.

use vstd::prelude::*;

verus! {

/// The characters of the bridge script the installer writes.
pub open spec fn bridge_script_text() -> Seq<char> {
    r#"const { IjokaClient } = require('@ijoka/client');
const fs = require('fs');
const path = require('path');

const SESSION_FILE = path.join(__dirname, '.current_session');

async function main() {
    const args = process.argv.slice(2);
    const command = args[0];
    const client = new IjokaClient('http://127.0.0.1:4000');
    const projectDir = process.cwd();

    switch (command) {
        case 'start':
            const sessionId = `antigravity-${Date.now()}`;
            console.log(`Starting session ${sessionId}...`);
            await client.startSession({
                sessionId,
                sourceAgent: 'antigravity',
                projectDir
            });
            fs.writeFileSync(SESSION_FILE, sessionId);
            console.log('Session started.');
            break;

        case 'list':
            console.log('Fetching features from Ijoka...');
            try {
                const features = await client.getFeatures(projectDir);
                console.log('\n--- Active Features ---');
                const active = features.filter(f => !f.passes);
                if (active.length === 0) {
                    console.log('No active features found.');
                } else {
                    active.forEach(f => {
                        const status = f.inProgress ? '[IN PROGRESS]' : '[TODO]';
                        console.log(`${status} ${f.description}`);
                    });
                }
                console.log('-----------------------\n');
            } catch (err) {
                console.error('Error fetching features:', err.message);
            }
            break;

        case 'end':
            if (fs.existsSync(SESSION_FILE)) {
                const sId = fs.readFileSync(SESSION_FILE, 'utf8');
                console.log(`Ending session ${sId}...`);
                await client.endSession({
                    sessionId: sId,
                    sourceAgent: 'antigravity',
                    projectDir
                });
                fs.unlinkSync(SESSION_FILE);
                console.log('Session ended.');
            } else {
                console.log('No active session found.');
            }
            break;

        default:
            console.log('Usage: node ijoka-bridge.js [start|list|end]');
    }
}

main().catch(console.error);
"#@
}

/// The characters of the workflow description the installer writes.
pub open spec fn workflow_text() -> Seq<char> {
    r#"---
description: Start a tracked work session in Ijoka
---

This workflow helps you synchronize your work with the Ijoka dashboard.

1. **Setup (First Time Only)**
   Ensure dependencies are installed.
   ```bash
   npm install @ijoka/client
   ```

2. **Check Active Features**
   View the current feature list to decide what to work on.
   ```bash
   // turbo
   node scripts/ijoka-bridge.js list
   ```

3. **Start Session**
   Register a new session with the Ijoka server.
   ```bash
   // turbo
   node scripts/ijoka-bridge.js start
   ```

4. **Perform Work**
   - Implement the selected feature.
   - When finished, ask the user to mark the feature as passed in Ijoka.

5. **End Session**
   When finished, close the session.
   ```bash
   // turbo
   node scripts/ijoka-bridge.js end
   ```
"#@
}

/// Service that installs the per-project workflow integration.
#[derive(Debug, Clone, Copy, PartialEq, Eq, Structural)]
pub struct WorkflowService;

impl WorkflowService {
    /// A fresh service handle.
    pub fn new() -> (s: WorkflowService)
        ensures
            s == (WorkflowService {}),
    {
        WorkflowService {}
    }

    /// Exactly the bridge script the installer writes into a project.
    pub fn get_bridge_script_content() -> (s: &'static str)
        ensures
            s@ == bridge_script_text(),
    {
        r#"const { IjokaClient } = require('@ijoka/client');
const fs = require('fs');
const path = require('path');

const SESSION_FILE = path.join(__dirname, '.current_session');

async function main() {
    const args = process.argv.slice(2);
    const command = args[0];
    const client = new IjokaClient('http://127.0.0.1:4000');
    const projectDir = process.cwd();

    switch (command) {
        case 'start':
            const sessionId = `antigravity-${Date.now()}`;
            console.log(`Starting session ${sessionId}...`);
            await client.startSession({
                sessionId,
                sourceAgent: 'antigravity',
                projectDir
            });
            fs.writeFileSync(SESSION_FILE, sessionId);
            console.log('Session started.');
            break;

        case 'list':
            console.log('Fetching features from Ijoka...');
            try {
                const features = await client.getFeatures(projectDir);
                console.log('\n--- Active Features ---');
                const active = features.filter(f => !f.passes);
                if (active.length === 0) {
                    console.log('No active features found.');
                } else {
                    active.forEach(f => {
                        const status = f.inProgress ? '[IN PROGRESS]' : '[TODO]';
                        console.log(`${status} ${f.description}`);
                    });
                }
                console.log('-----------------------\n');
            } catch (err) {
                console.error('Error fetching features:', err.message);
            }
            break;

        case 'end':
            if (fs.existsSync(SESSION_FILE)) {
                const sId = fs.readFileSync(SESSION_FILE, 'utf8');
                console.log(`Ending session ${sId}...`);
                await client.endSession({
                    sessionId: sId,
                    sourceAgent: 'antigravity',
                    projectDir
                });
                fs.unlinkSync(SESSION_FILE);
                console.log('Session ended.');
            } else {
                console.log('No active session found.');
            }
            break;

        default:
            console.log('Usage: node ijoka-bridge.js [start|list|end]');
    }
}

main().catch(console.error);
"#
    }

    /// Exactly the workflow description the installer writes into a project.
    pub fn get_workflow_content() -> (s: &'static str)
        ensures
            s@ == workflow_text(),
    {
        r#"---
description: Start a tracked work session in Ijoka
---

This workflow helps you synchronize your work with the Ijoka dashboard.

1. **Setup (First Time Only)**
   Ensure dependencies are installed.
   ```bash
   npm install @ijoka/client
   ```

2. **Check Active Features**
   View the current feature list to decide what to work on.
   ```bash
   // turbo
   node scripts/ijoka-bridge.js list
   ```

3. **Start Session**
   Register a new session with the Ijoka server.
   ```bash
   // turbo
   node scripts/ijoka-bridge.js start
   ```

4. **Perform Work**
   - Implement the selected feature.
   - When finished, ask the user to mark the feature as passed in Ijoka.

5. **End Session**
   When finished, close the session.
   ```bash
   // turbo
   node scripts/ijoka-bridge.js end
   ```
"#
    }
}

} // verus!
