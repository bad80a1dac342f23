#!/usr/bin/env bash
# Builds the app bundle whose default mode is the graphical interface.
set -euo pipefail
here="$(cd "$(dirname "$0")" && pwd)"
"$here/build_apple_silicon_app.sh"
echo "start it with: open dist/treefold.app (add -t on the command line for the terminal interface)"
