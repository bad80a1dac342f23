#!/usr/bin/env bash
# Builds a native arm64 binary and wraps it in dist/treefold.app.
set -euo pipefail
root="$(cd "$(dirname "$0")/../.." && pwd)"
target=aarch64-apple-darwin
cd "$root"
cargo build --release --target "$target"
bin="$root/target/$target/release/treefold"
app="$root/dist/treefold.app"
rm -rf "$app"
mkdir -p "$app/Contents/MacOS" "$app/Contents/Resources"
cp "$bin" "$app/Contents/MacOS/treefold"
if [ -f "$root/extras/assets/treefold.icns" ]; then
  cp "$root/extras/assets/treefold.icns" "$app/Contents/Resources/treefold.icns"
fi
cat > "$app/Contents/Info.plist" <<PLIST
<?xml version="1.0" encoding="UTF-8"?>
<!DOCTYPE plist PUBLIC "-//Apple//DTD PLIST 1.0//EN" "http://www.apple.com/DTDs/PropertyList-1.0.dtd">
<plist version="1.0">
<dict>
  <key>CFBundleName</key><string>treefold</string>
  <key>CFBundleIdentifier</key><string>dev.treefold.app</string>
  <key>CFBundleExecutable</key><string>treefold</string>
  <key>CFBundleIconFile</key><string>treefold.icns</string>
  <key>CFBundlePackageType</key><string>APPL</string>
</dict>
</plist>
PLIST
file "$bin"
echo "bundle: $app"
