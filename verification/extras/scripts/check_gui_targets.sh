#!/usr/bin/env bash
# Type-checks the program for the Linux and Windows targets that are installed.
set -euo pipefail
root="$(cd "$(dirname "$0")/../.." && pwd)"
cd "$root"
for target in x86_64-unknown-linux-gnu x86_64-pc-windows-msvc; do
  if rustup target list --installed | grep -q "^$target\$"; then
    cargo check --target "$target"
  else
    echo "skipping $target (not installed)"
  fi
done
